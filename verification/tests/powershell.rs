use choreo_tools::child_run::ProcessOutput;
use choreo_tools::error::ToolExecError;
use choreo_tools::json::Json;
use choreo_tools::powershell::{
    PowerShell, PsArgs, PsShell, build_ps_command, build_ps_script,
    encode_ps_script, execute_ps_tool, plan_ps_tool,
};
use base64::Engine;

/// The text that the argument of `-EncodedCommand` stands for.
fn decoded(encoded: &str) -> String {
    let bytes =
        base64::engine::general_purpose::STANDARD.decode(encoded).expect("valid base64");
    assert_eq!(bytes.len() % 2, 0, "UTF-16LE is whole 2-byte units");
    let units: Vec<u16> = bytes.chunks(2).map(|c| u16::from_le_bytes([c[0], c[1]])).collect();
    String::from_utf16(&units).expect("valid UTF-16")
}

#[test]
fn ps_shell_enum_json_schema_uses_flat_enum_format() {
    let schema = PsShell::json_schema();
    assert_eq!(schema.get("type").and_then(|t| t.as_str()), Some("string"));
    match schema.get("enum") {
        Some(Json::List(v)) => {
            let variants: Vec<&str> = v.iter().filter_map(|v| v.as_str()).collect();
            assert_eq!(variants, vec!["powershell", "pwsh"]);
        }
        _ => panic!("PsShell should have an enum array"),
    }
}

#[test]
fn build_ps_script_prepends_utf8_preamble() {
    // The preamble must come FIRST so the UTF-8 output encoding is in
    // force before the user's command produces any output, and the user's
    // command must be appended verbatim.
    let script = build_ps_script("Write-Output 'héllo'");
    assert!(script.starts_with("[Console]::OutputEncoding="));
    assert!(script.contains("$ProgressPreference='SilentlyContinue'"));
    assert!(script.ends_with("Write-Output 'héllo'"));
}

#[test]
fn encode_ps_script_round_trips_utf16le() {
    // The exact script survives: any mix of quotes/specials must arrive untouched.
    let script = build_ps_script("echo \"a'b\" %PATH% ^! ~");
    let encoded = encode_ps_script(&script);
    assert_eq!(decoded(&encoded), script);
}

#[test]
fn build_ps_command_uses_encodedcommand_and_pipes() {
    let cmd = build_ps_command(PsShell::Powershell, "Get-ChildItem", ".");
    assert_eq!(cmd.program, "powershell");
    assert_eq!(&cmd.arguments[..3], ["-NoProfile", "-NonInteractive", "-EncodedCommand"]);
    assert!(decoded(&cmd.arguments[3]).ends_with("Get-ChildItem"));
}

#[test]
fn ps_shell_binaries() {
    assert_eq!(PsShell::Powershell.binary(), "powershell");
    assert_eq!(PsShell::Pwsh.binary(), "pwsh");
}

#[test]
fn a_script_beyond_the_basic_plane_reads_back() {
    let script = build_ps_script("echo '😀é\u{ffff}'");
    assert_eq!(decoded(&encode_ps_script(&script)), script);
}

fn ps(command: &str) -> PsArgs {
    PsArgs {
        command: command.to_string(),
        shell: PsShell::Pwsh,
        workdir: Some("sub".to_string()),
        timeout: Some(1500),
    }
}

#[test]
fn a_run_is_reported_with_its_exit_code() {
    let out = execute_ps_tool(
        &ps("dir"),
        Ok(ProcessOutput {
            stdout: b"out\n".to_vec(),
            stderr: b"err\n".to_vec(),
            exit_code: Some(3),
            was_killed: false,
        }),
    )
    .unwrap();
    assert!(out.contains("out\nerr\n"), "{out}");
    assert!(out.contains("3"), "{out}");
    let killed = execute_ps_tool(
        &ps("dir"),
        Ok(ProcessOutput { stdout: vec![], stderr: vec![], exit_code: None, was_killed: true }),
    )
    .unwrap();
    assert!(killed.contains("1500"), "{killed}");
    assert!(execute_ps_tool(&ps("dir"), Err(ToolExecError("no shell".to_string()))).is_err());
}

#[test]
fn a_run_is_planned_in_its_directory() {
    let (line, timeout) = plan_ps_tool(&ps("dir"), Some("/w"));
    assert_eq!(line.program, "pwsh");
    assert_eq!(line.workdir, "/w/sub");
    assert_eq!(timeout, 1500);
    assert!(PowerShell.describe_invocation(&ps("dir")).contains("dir"));
}
