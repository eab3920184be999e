//! What the sentence that announces a call is for: it names what the call will work on, in the words
//! of the call.

use crate::grep::GrepArgs;
use crate::grep;
use crate::http::HttpRequestArgs;
use crate::http;
use crate::image_gen::GenerateImageArgs;
use crate::image_gen;
use crate::matching;
use crate::pdf::PdfToMarkdownArgs;
use crate::pdf;
use crate::powershell::PsArgs;
use crate::powershell;
use crate::read_file::ReadFileArgs;
use crate::read_file;
use crate::retrieve_webpage::{RetrieveWebpageArgs, WebpageAction};
use crate::retrieve_webpage;
use crate::text;
use crate::text_laws;
use vstd::prelude::*;
use vstd::string::*;
use vstd::utf8::*;

verus! {

/// What stands in the middle of a text is held by it.
proof fn lemma_named(all: Seq<char>, before: Seq<char>, n: Seq<char>, after: Seq<char>)
    requires
        all =~= before + n + after,
    ensures
        matching::holds(all, n),
{
    let k = before.len() as int;
    assert(all.subrange(k, k + n.len()) =~= n);
    assert(matching::stands_at(all, n, k));
}

proof fn lemma_regrouped(x: Seq<char>, g: Seq<char>, p: Seq<char>, m: Seq<char>)
    ensures
        x + g + p + m == x + (g + p + m),
        x + g + p == x + (g + p),
{
    assert(x + g + p + m =~= x + (g + p + m));
    assert(x + g + p =~= x + (g + p));
}

/// What begins a text, and what follows its beginning.
proof fn lemma_begins(a: Seq<char>, b: Seq<char>, c: Seq<char>, x: Seq<char>)
    ensures
        a.is_prefix_of(a + b + c + x),
        matching::holds(a + b + c + x, b),
        matching::holds(a + b + c + x, c),
{
    let d = a + b + c + x;
    assert(d.take(a.len() as int) =~= a);
    lemma_named(d, a, b, c + x);
    lemma_named(d, a + b, c, x);
}

/// What ends a text, and what stands before its end.
proof fn lemma_ends(x: Seq<char>, g: Seq<char>, p: Seq<char>, m: Seq<char>)
    ensures
        m.is_suffix_of(x + g + p + m),
        matching::holds(x + g + p + m, p),
        matching::holds(x + g + p + m, g),
{
    let d = x + g + p + m;
    assert(d.skip(d.len() - m.len()) =~= m);
    lemma_named(d, x + g, p, m);
    lemma_named(d, x, g, p + m);
}

/// The announcement of a search begins with its pattern, says whether it is a regular expression and
/// whether case is ignored, and names the path it is for.
pub proof fn law_search_is_announced(args: GrepArgs)
    ensures
        ("Searching for `"@ + args.pattern@ + "`."@ + (if args.regex {
            " Using regex."@
        } else {
            Seq::empty()
        }) + (if args.ignore_case {
            " Ignoring case."@
        } else {
            Seq::empty()
        })).is_prefix_of(grep::grep_description(args)),
        args.path matches Some(p) ==> matching::holds(
            grep::grep_description(args),
            " In path: `"@ + p@ + "`."@,
        ),
        args.path is None ==> matching::holds(
            grep::grep_description(args),
            " In working directory."@,
        ),
        args.include_glob matches Some(g) ==> matching::holds(
            grep::grep_description(args),
            " Include pattern: `"@ + g@ + "`."@,
        ),
        args.max_results matches Some(n) && 1 <= n <= 200 ==> (" Max results: "@ + text::decimal(
            args.max_results->0 as nat,
        ) + "."@).is_suffix_of(grep::grep_description(args)),
{
    let d = grep::grep_description(args);
    let content = args.output_mode is Content;
    let a = "Searching for `"@ + args.pattern@ + "`."@ + grep::when(args.regex, " Using regex."@)
        + grep::when(args.ignore_case, " Ignoring case."@);
    let b = grep::when(
        args.context > 0 && content,
        " Showing "@ + text::decimal(grep::clamped_context(args.context) as nat)
            + " context line(s)."@,
    );
    let c = grep::when(
        !content,
        " Output mode: "@ + crate::grep_sink::mode_name(args.output_mode) + "."@,
    );
    let g = match args.include_glob {
        Some(x) => " Include pattern: `"@ + x@ + "`."@,
        None => Seq::empty(),
    };
    let p = match args.path {
        Some(x) => " In path: `"@ + x@ + "`."@,
        None => " In working directory."@,
    };
    let m = match args.max_results {
        Some(n) => " Max results: "@ + text::decimal(grep::clamped_results(n) as nat) + "."@,
        None => Seq::empty(),
    };
    assert(d == a + b + c + g + p + m);
    lemma_ends(a + b + c, g, p, m);
    lemma_begins(a, b, c, g + p + m);
    lemma_regrouped(a + b + c, g, p, m);
}

/// The announcement of a request names its method and its URL, and ends with the time that is asked
/// for.
pub proof fn law_request_is_announced(args: HttpRequestArgs)
    ensures
        ("Making "@ + args.method@ + " HTTP request to "@ + args.url@ + "."@).is_prefix_of(
            http::http_invocation(args),
        ),
        args.timeout_secs matches Some(t) ==> (" Timeout: "@ + text::decimal(t as nat)
            + "s."@).is_suffix_of(http::http_invocation(args)),
        args.body matches Some(b) ==> matching::holds(
            http::http_invocation(args),
            " Body: "@ + text::decimal(encode_utf8(b@).len()) + " bytes."@,
        ),
        args.headers@.len() > 0 ==> matching::holds(
            http::http_invocation(args),
            " "@ + text::decimal(args.headers@.len()) + " header(s)."@,
        ),
{
    let d = http::http_invocation(args);
    let a = "Making "@ + args.method@ + " HTTP request to "@ + args.url@ + "."@;
    let h = if args.headers@.len() > 0 {
        " "@ + text::decimal(args.headers@.len()) + " header(s)."@
    } else {
        Seq::empty()
    };
    let b = match args.body {
        Some(x) => " Body: "@ + text::decimal(text::utf8_len(x@)) + " bytes."@,
        None => Seq::empty(),
    };
    let n = text::decimal(
        match args.timeout_secs {
            Some(t) => t as nat,
            None => 30,
        },
    );
    let t = " Timeout: "@ + n + "s."@;
    assert(d =~= a + h + b + t);
    assert(d.take(a.len() as int) =~= a);
    assert(d.skip(d.len() - t.len()) =~= t);
    lemma_named(d, a + h, b, t);
    lemma_named(d, a, h, b + t);
}

/// The announcement of a retrieval names what is wanted of the page, and its URL.
pub proof fn law_retrieval_is_announced(args: RetrieveWebpageArgs)
    ensures
        ("Retrieving web page ("@ + (match args.action {
            Some(WebpageAction::Text) => "text"@,
            Some(WebpageAction::Screenshot) => "screenshot"@,
            Some(WebpageAction::Pdf) => "pdf"@,
            _ => "content"@,
        }) + "). URL: "@ + args.url@ + "."@).is_prefix_of(
            retrieve_webpage::webpage_invocation(args),
        ),
        args.output_path matches Some(p) ==> (" Output: "@ + p@ + "."@).is_suffix_of(
            retrieve_webpage::webpage_invocation(args),
        ),
        args.selector matches Some(s) ==> matching::holds(
            retrieve_webpage::webpage_invocation(args),
            " Selector: "@ + s@ + "."@,
        ),
{
    let d = retrieve_webpage::webpage_invocation(args);
    let a = "Retrieving web page ("@ + retrieve_webpage::action_name(
        retrieve_webpage::chosen_action(args),
    ) + "). URL: "@ + args.url@ + "."@;
    let s = match args.selector {
        Some(x) => " Selector: "@ + x@ + "."@,
        None => Seq::empty(),
    };
    let o = match args.output_path {
        Some(x) => " Output: "@ + x@ + "."@,
        None => Seq::empty(),
    };
    assert(d == a + s + o);
    assert(d.take(a.len() as int) =~= a);
    assert(d.skip(d.len() - o.len()) =~= o);
    lemma_named(d, a, s, o);
}

/// The announcement of a command is the command itself, the shell, and the time where it is asked
/// for.
pub proof fn law_command_is_announced(args: PsArgs)
    ensures
        ("Running PowerShell command: `"@ + args.command@ + "`."@).is_prefix_of(
            powershell::ps_invocation(args),
        ),
        matching::holds(
            powershell::ps_invocation(args),
            " Shell: "@ + (if args.shell is Pwsh {
                "Pwsh"@
            } else {
                "Powershell"@
            }) + "."@,
        ),
        args.timeout matches Some(t) ==> (" Timeout: "@ + text::decimal(t as nat)
            + "ms."@).is_suffix_of(powershell::ps_invocation(args)),
{
    let d = powershell::ps_invocation(args);
    let a = "Running PowerShell command: `"@ + args.command@ + "`."@;
    let s = " Shell: "@ + powershell::shell_name(args.shell) + "."@;
    let t = match args.timeout {
        Some(x) => " Timeout: "@ + text::decimal(x as nat) + "ms."@,
        None => Seq::empty(),
    };
    assert(d =~= a + s + t);
    assert(d.take(a.len() as int) =~= a);
    assert(d.skip(d.len() - t.len()) =~= t);
    lemma_named(d, a, s, t);
}

/// The announcement of an image is its prompt, and what is asked for besides.
pub proof fn law_image_is_announced(args: GenerateImageArgs)
    ensures
        ("Generating image from prompt: "@ + args.prompt@ + "."@).is_prefix_of(
            image_gen::image_invocation(args),
        ),
        args.model matches Some(m) ==> matching::holds(
            image_gen::image_invocation(args),
            " Model: `"@ + m@ + "`."@,
        ),
        args.size matches Some(s) ==> matching::holds(
            image_gen::image_invocation(args),
            " Size: "@ + image_gen::size_name(s) + "."@,
        ),
        args.alt matches Some(x) ==> (" Alt text: "@ + x@ + "."@).is_suffix_of(
            image_gen::image_invocation(args),
        ),
{
    let d = image_gen::image_invocation(args);
    let a = "Generating image from prompt: "@ + args.prompt@ + "."@;
    let m = match args.model {
        Some(x) => " Model: `"@ + x@ + "`."@,
        None => Seq::empty(),
    };
    let s = match args.size {
        Some(x) => " Size: "@ + image_gen::size_name(x) + "."@,
        None => Seq::empty(),
    };
    let q = image_gen::noted(
        " Quality: "@,
        match args.quality {
            Some(x) => Some(image_gen::quality_name(x)),
            None => None,
        },
        "."@,
    );
    let f = image_gen::noted(
        " Format: "@,
        match args.output_format {
            Some(x) => Some(image_gen::format_name(x)),
            None => None,
        },
        "."@,
    );
    let b = image_gen::noted(
        " Background: "@,
        match args.background {
            Some(x) => Some(image_gen::background_name(x)),
            None => None,
        },
        "."@,
    );
    let t = match args.alt {
        Some(x) => " Alt text: "@ + x@ + "."@,
        None => Seq::empty(),
    };
    assert(d == a + m + s + q + f + b + t);
    lemma_ends(a + m + s + q, f, b, t);
    lemma_begins(a, m, s, q + f + b + t);
    lemma_regrouped(a + m + s, q, f, b);
    lemma_regrouped(a + m + s, q + f + b, t, Seq::empty());
    assert(d + Seq::<char>::empty() =~= d);
    assert(q + f + b + t + Seq::<char>::empty() =~= q + f + b + t);
}

/// The announcement of a conversion names the document, and its pages where some are asked for.
pub proof fn law_conversion_is_announced(args: PdfToMarkdownArgs)
    ensures
        ("Converting PDF `"@ + args.path@ + "` to Markdown."@).is_prefix_of(
            pdf::markdown_invocation(args),
        ),
        args.pages matches Some(p) ==> matching::holds(
            pdf::markdown_invocation(args),
            " pages: ["@ + pdf::page_list(p@) + "]."@,
        ),
        args.compact == Some(true) ==> " compact mode."@.is_suffix_of(
            pdf::markdown_invocation(args),
        ),
        args.pages is None && args.compact != Some(true) ==> pdf::markdown_invocation(args)
            == "Converting PDF `"@ + args.path@ + "` to Markdown."@,
{
    let d = pdf::markdown_invocation(args);
    let a = "Converting PDF `"@ + args.path@ + "` to Markdown."@;
    let p = match args.pages {
        Some(x) => " pages: ["@ + pdf::page_list(x@) + "]."@,
        None => Seq::empty(),
    };
    let c = if args.compact == Some(true) {
        " compact mode."@
    } else {
        Seq::empty()
    };
    assert(d == a + p + c);
    assert(d.take(a.len() as int) =~= a);
    assert(d.skip(d.len() - c.len()) =~= c);
    lemma_named(d, a, p, c);
    assert(a + Seq::<char>::empty() + Seq::<char>::empty() =~= a);
}

/// The announcement of a read names the file, and its lines where not all of them are asked for.
pub proof fn law_read_is_announced(args: ReadFileArgs)
    requires
        text_laws::readable_text(args.path@),
    ensures
        ("Reading file `"@ + args.path@ + "`"@).is_prefix_of(read_file::read_file_description(args)),
        args.start_line == 1 && args.max_lines == 2000 ==> read_file::read_file_description(args)
            == "Reading file `"@ + args.path@ + "`."@,
        args.start_line > 1 || args.max_lines < 2000 ==> read_file::read_file_description(args)
            == "Reading file `"@ + args.path@ + "` from line "@ + text::decimal(
            args.start_line as nat,
        ) + " (max "@ + text::decimal(args.max_lines as nat) + " lines)."@,
{
    text_laws::law_readable_text_is_kept(args.path@, true);
    reveal_strlit("`");
    reveal_strlit("`.");
    reveal_strlit("` from line ");
    let d = read_file::read_file_description(args);
    let a = "Reading file `"@ + args.path@ + "`"@;
    assert(d.take(a.len() as int) =~= a);
}

} // verus!
