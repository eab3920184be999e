//! `set_working_dir`: another working directory for a session.
//!
//! The session itself is changed by the daemon, which is asked elsewhere.

use crate::error::{ToolExecError, tool_error, tool_error_with};
use crate::paths::resolve_path;
use crate::paths;
use vstd::prelude::*;
use vstd::string::*;

verus! {

/// Arguments of `set_working_dir`.
#[derive(Debug)]
pub struct SetWorkingDirArgs {
    pub path: String,
}

/// What `set_working_dir` gives back.
#[derive(Debug, Clone)]
pub struct SetWorkingDirResult {
    /// The directory with its symbolic links resolved.
    pub path: String,
}

/// The tool itself.
pub struct SetWorkingDir;

/// Says where a call wants to go; one without a session is an error.
pub fn begin_set_working_dir(
    args: &SetWorkingDirArgs,
    working_dir: Option<&str>,
    has_session: bool,
) -> (r: Result<String, ToolExecError>)
    ensures
        match r {
            Err(e) => !has_session && e@ == "no session context"@,
            Ok(p) => {
                &&& has_session
                &&& exists|home: Option<Seq<char>>|
                    p@ == #[trigger] paths::resolved_path(args.path@, paths::opt_str(working_dir), home)
                &&& !paths::tilde_form(args.path@) ==> p@ == paths::resolved_path(
                    args.path@,
                    paths::opt_str(working_dir),
                    None,
                )
            },
        },
{
    if !has_session {
        return Err(tool_error("no session context"));
    }
    Ok(resolve_path(args.path.as_str(), working_dir))
}

/// The error for a path that leads nowhere.
pub fn unresolved_error(resolved: &str, why: &str) -> (e: ToolExecError)
    ensures
        e@ == "path '"@ + resolved@ + "' does not exist or cannot be resolved: "@ + why@,
{
    let mut m = "path '".to_owned();
    m.append(resolved);
    m.append("' does not exist or cannot be resolved: ");
    m.append(why);
    ToolExecError(m)
}

/// What the daemon had to say.
#[derive(Debug)]
pub enum DaemonReply {
    /// It was not reached.
    Unreached(String),
    /// It did not answer.
    Silent(String),
    /// It refused.
    Refused(String),
    /// The session was changed.
    Applied,
}

/// Whether a call that wants to go to `canonical` comes to `r`, where `reply` is what the daemon said.
pub open spec fn moves_to(
    canonical: Seq<char>,
    reply: DaemonReply,
    r: Result<SetWorkingDirResult, ToolExecError>,
) -> bool {
    match (reply, r) {
        (DaemonReply::Unreached(m), Err(e)) => e@ == "daemon communication failed: "@ + m@,
        (DaemonReply::Silent(m), Err(e)) => e@ == "daemon did not respond: "@ + m@,
        (DaemonReply::Refused(m), Err(e)) => e@ == m@,
        (DaemonReply::Applied, Ok(d)) => d.path@ == canonical,
        _ => false,
    }
}

/// Makes the result of a call. `canonical` is the directory without symbolic links, and `reply` what
/// the daemon said when it was asked to go there.
pub fn finish_set_working_dir(canonical: &str, reply: DaemonReply) -> (r: Result<
    SetWorkingDirResult,
    ToolExecError,
>)
    ensures
        moves_to(canonical@, reply, r),
{
    match reply {
        DaemonReply::Unreached(m) => Err(
            tool_error_with("daemon communication failed: ", m.as_str()),
        ),
        DaemonReply::Silent(m) => Err(tool_error_with("daemon did not respond: ", m.as_str())),
        DaemonReply::Refused(m) => Err(ToolExecError(m)),
        DaemonReply::Applied => Ok(SetWorkingDirResult { path: canonical.to_owned() }),
    }
}

/// A short text on a call.
pub fn describe_invocation(args: &SetWorkingDirArgs) -> (r: String)
    ensures
        r@ == "Changing session working directory to '"@ + args.path@ + "'."@,
{
    let mut out = "Changing session working directory to '".to_owned();
    out.append(args.path.as_str());
    out.append("'.");
    out
}

impl SetWorkingDir {
    /// The text of a result.
    pub fn return_string(ret: &SetWorkingDirResult) -> (r: String)
        ensures
            r@ == "Working directory changed to '"@ + ret.path@ + "'."@,
    {
        let mut out = "Working directory changed to '".to_owned();
        out.append(ret.path.as_str());
        out.append("'.");
        out
    }
}

/// Makes the result of a call. `canonical` is what became of the path once its symbolic links were
/// resolved, and `reply` what the daemon said when it was asked to go there.
pub fn execute_set_working_dir(
    args: &SetWorkingDirArgs,
    working_dir: Option<&str>,
    has_session: bool,
    canonical: Result<String, String>,
    reply: DaemonReply,
) -> (r: Result<SetWorkingDirResult, ToolExecError>)
    ensures
        !has_session ==> (r matches Err(e) && e@ == "no session context"@),
        has_session && canonical is Err ==> (r matches Err(e) && exists|home: Option<Seq<char>>|
            e@ == unresolved_message(
                #[trigger] paths::resolved_path(args.path@, paths::opt_str(working_dir), home),
                canonical->Err_0@,
            )),
        has_session && canonical is Ok ==> moves_to(canonical->Ok_0@, reply, r),
{
    let resolved = match begin_set_working_dir(args, working_dir, has_session) {
        Ok(p) => p,
        Err(e) => {
            return Err(e);
        },
    };
    match canonical {
        Err(m) => {
            let ghost home = choose|home: Option<Seq<char>>|
                resolved@ == #[trigger] paths::resolved_path(args.path@, paths::opt_str(working_dir), home);
            let e = unresolved_error(resolved.as_str(), m.as_str());
            assert(e@ == unresolved_message(
                paths::resolved_path(args.path@, paths::opt_str(working_dir), home),
                m@,
            ));
            Err(e)
        },
        Ok(c) => finish_set_working_dir(c.as_str(), reply),
    }
}

/// The message for a path that leads nowhere.
pub open spec fn unresolved_message(resolved: Seq<char>, why: Seq<char>) -> Seq<char> {
    "path '"@ + resolved + "' does not exist or cannot be resolved: "@ + why
}

/// A session goes where it wants exactly where the daemon applied it, and then the directory is the
/// one that the daemon was asked for; what the daemon refuses is refused in its words.
pub proof fn law_session_moves_where_it_was_let(
    canonical: Seq<char>,
    reply: DaemonReply,
    r: Result<SetWorkingDirResult, ToolExecError>,
)
    requires
        moves_to(canonical, reply, r),
    ensures
        r is Ok <==> reply is Applied,
        r is Ok ==> r->Ok_0.path@ == canonical,
        reply matches DaemonReply::Refused(m) ==> r->Err_0@ == m@,
        reply matches DaemonReply::Unreached(m) ==> m@.is_suffix_of(r->Err_0@),
        reply matches DaemonReply::Silent(m) ==> m@.is_suffix_of(r->Err_0@),
{
    match reply {
        DaemonReply::Unreached(m) => {
            let e = r->Err_0@;
            assert(e.skip(e.len() - m@.len()) =~= m@);
        },
        DaemonReply::Silent(m) => {
            let e = r->Err_0@;
            assert(e.skip(e.len() - m@.len()) =~= m@);
        },
        _ => {},
    }
}

} // verus!
