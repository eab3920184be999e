use choreo_tools::set_working_dir::{
    DaemonReply, SetWorkingDir, SetWorkingDirArgs, SetWorkingDirResult, begin_set_working_dir,
    describe_invocation, execute_set_working_dir,
};

fn args(path: &str) -> SetWorkingDirArgs {
    SetWorkingDirArgs { path: path.to_string() }
}

#[test]
fn execute_set_working_dir_sends_daemon_command() {
    // The daemon is asked for the directory that the path names.
    let asked = begin_set_working_dir(&args("/data/dir"), None, true).unwrap();
    assert_eq!(asked, "/data/dir");
    let result = execute_set_working_dir(
        &args("/data/dir"),
        None,
        true,
        Ok("/data/dir".to_string()),
        DaemonReply::Applied,
    );
    assert!(result.is_ok(), "expected ok: {:?}", result.err());
    assert_eq!(result.unwrap().path, "/data/dir");
}

#[test]
fn execute_resolves_relative_path_against_working_dir() {
    let asked = begin_set_working_dir(&args("sub"), Some("/data"), true).unwrap();
    assert_eq!(asked, "/data/sub");
    let result = execute_set_working_dir(
        &args("sub"),
        Some("/data"),
        true,
        Ok("/private/data/sub".to_string()),
        DaemonReply::Applied,
    );
    assert_eq!(result.unwrap().path, "/private/data/sub");
}

#[test]
fn execute_expands_tilde() {
    let home = dirs::home_dir().expect("home dir should exist in test env");
    let asked = begin_set_working_dir(&args("~"), None, true).unwrap();
    assert_eq!(asked, home.to_string_lossy());
    let result =
        execute_set_working_dir(&args("~"), None, true, Ok(asked), DaemonReply::Applied);
    assert!(result.is_ok(), "expected ok: {:?}", result.err());
    assert_eq!(result.unwrap().path, home.to_string_lossy());
}

#[test]
fn execute_forwards_daemon_error() {
    let result = execute_set_working_dir(
        &args("/data"),
        None,
        true,
        Ok("/data".to_string()),
        DaemonReply::Refused("session is not active".to_string()),
    );
    assert!(result.is_err());
    assert!(result.unwrap_err().to_string().contains("session is not active"));
}

#[test]
fn execute_no_context_returns_error() {
    let result = execute_set_working_dir(
        &args("/tmp"),
        None,
        false,
        Ok("/tmp".to_string()),
        DaemonReply::Applied,
    );
    assert!(result.is_err());
    assert!(result.unwrap_err().to_string().contains("no session context"));
}

#[test]
fn execute_nonexistent_path_returns_error() {
    let result = execute_set_working_dir(
        &args("/data/does-not-exist"),
        None,
        true,
        Err("No such file or directory".to_string()),
        DaemonReply::Applied,
    );
    assert!(result.is_err());
    assert!(
        result.unwrap_err().to_string().contains("does not exist or cannot be resolved")
    );
}

#[test]
fn a_silent_daemon_is_an_error() {
    for (reply, text) in [
        (DaemonReply::Unreached("closed".to_string()), "daemon communication failed: closed"),
        (DaemonReply::Silent("timeout".to_string()), "daemon did not respond: timeout"),
    ] {
        let result =
            execute_set_working_dir(&args("/d"), None, true, Ok("/d".to_string()), reply);
        assert_eq!(result.unwrap_err().to_string(), text);
    }
}

#[test]
fn describe_invocation_includes_path() {
    let desc = describe_invocation(&args("/home/user/project"));
    assert_eq!(desc, "Changing session working directory to '/home/user/project'.");
}

#[test]
fn return_string_formats_correctly() {
    let result = SetWorkingDirResult { path: "/tmp".into() };
    let s = SetWorkingDir::return_string(&result);
    assert_eq!(s, "Working directory changed to '/tmp'.");
}
