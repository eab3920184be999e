use choreo_tools::image_gen::PreparedImage;
use choreo_tools::json::Json;
use choreo_tools::registry::{
    AllowedCaller, ToolCall, ToolError, ToolInfo, ToolOutputFormat, ToolRegistry, ToolReturn,
    default_callers, direct_callers, host_infos, read_empty_args, static_groups,
    unknown_group_names,
};

fn info(name: &str, group: &str, description: &str, callers: Vec<AllowedCaller>) -> ToolInfo {
    ToolInfo {
        name: name.to_string(),
        group: group.to_string(),
        description: description.to_string(),
        callers,
    }
}

fn default_tool() -> ToolInfo {
    info("default_tool", "test", "A tool with default settings", default_callers())
}

fn restricted_tool() -> ToolInfo {
    info("restricted_tool", "test", "A tool with restricted callers", direct_callers())
}

fn with_test_tools() -> ToolRegistry {
    let mut registry = ToolRegistry::new();
    registry.register(default_tool());
    registry.register(restricted_tool());
    registry
}

fn raw_return() -> ToolReturn {
    ToolReturn {
        text: "raw\noutput".to_string(),
        json_text: Some(r#""raw\noutput""#.to_string()),
        json: None,
        image: Some(PreparedImage {
            mime_type: "image/png".to_string(),
            data: vec![1],
            width: 1,
            height: 1,
            alt: None,
        }),
        image_ref: None,
    }
}

fn called(description: &str) -> Result<ToolCall, String> {
    Ok(ToolCall { description: description.to_string(), returned: Ok(raw_return()) })
}

fn core_groups() -> Vec<String> {
    vec!["core".to_string()]
}

#[test]
fn available_definitions_responses_restricts_session_config_tools() {
    let registry = ToolRegistry::new();
    let defs = registry.available_definitions_for_responses(&core_groups());
    // Session-config tools are Direct-only so programmatic callers cannot silently redirect the
    // session's working directory or tool surface.
    let set_wd = defs
        .iter()
        .find(|d| d.name == "set_working_dir")
        .expect("set_working_dir should be defined");
    assert_eq!(set_wd.allowed_callers.as_deref(), Some(&[AllowedCaller::Direct][..]));
    // Ordinary tools keep the default (model or program).
    let read_file =
        defs.iter().find(|d| d.name == "read_file").expect("read_file should be defined");
    assert_eq!(
        read_file.allowed_callers.as_deref(),
        Some(&[AllowedCaller::Direct, AllowedCaller::Programmatic][..])
    );
}

#[test]
fn registry_registers_session_inspect_in_debug_group() {
    let registry = ToolRegistry::new();
    let tool = registry.get("session_inspect").expect("session_inspect registered");
    assert_eq!(tool.group, "debug");
    assert!(registry.group_names().iter().any(|g| g == "debug"));
    // It is offered with its group and not with the core.
    let defs = registry.available_definitions(&vec!["debug".to_string()]);
    assert!(defs.iter().any(|d| d.name == "session_inspect"));
    let defs = registry.available_definitions(&core_groups());
    assert!(!defs.iter().any(|d| d.name == "session_inspect"));
}

#[test]
fn default_allowed_callers_includes_both() {
    let callers = default_callers();
    assert_eq!(callers.len(), 2);
    assert!(callers.contains(&AllowedCaller::Direct));
    assert!(callers.contains(&AllowedCaller::Programmatic));
}

#[test]
fn default_tool_name_description_schema() {
    let registry = with_test_tools();
    let tool = registry.get("default_tool").unwrap();
    assert_eq!(tool.name, "default_tool");
    assert_eq!(tool.group, "test");
    assert_eq!(tool.description, "A tool with default settings");
}

#[test]
fn tooldyn_delegates_allowed_callers() {
    let registry = with_test_tools();
    let callers = &registry.get("default_tool").unwrap().callers;
    assert!(callers.contains(&AllowedCaller::Direct));
    assert!(callers.contains(&AllowedCaller::Programmatic));
}

#[test]
fn tooldyn_delegates_group() {
    assert_eq!(with_test_tools().get("default_tool").unwrap().group, "test");
}

#[test]
fn restricted_tool_uses_overridden_allowed_callers() {
    assert_eq!(direct_callers(), vec![AllowedCaller::Direct]);
    assert!(!direct_callers().contains(&AllowedCaller::Programmatic));
}

#[test]
fn tooldyn_delegates_restricted_allowed_callers() {
    let registry = with_test_tools();
    assert_eq!(registry.get("restricted_tool").unwrap().callers, vec![AllowedCaller::Direct]);
}

fn host_tool(name: &str) -> ToolInfo {
    host_infos().into_iter().find(|t| t.name == name).expect("a tool of the host")
}

#[test]
fn ios_tools_are_direct_only() {
    for name in ["clipboard_write", "clipboard_read"] {
        assert_eq!(host_tool(name).callers, vec![AllowedCaller::Direct]);
        assert_eq!(host_tool(name).group, "ios");
    }
}

#[test]
fn notify_direct_only_callers() {
    assert_eq!(host_tool("notify").callers, vec![AllowedCaller::Direct]);
}

#[test]
fn open_url_direct_only_callers() {
    assert_eq!(host_tool("open_url").callers, vec![AllowedCaller::Direct]);
}

#[test]
fn powershell_tool_has_valid_metadata() {
    let tool = host_tool("powershell");
    assert!(!tool.name.is_empty());
    assert!(!tool.description.is_empty());
    assert_eq!(tool.group, "shell");
}

#[test]
fn tool_restricted_to_direct_callers() {
    let registry = ToolRegistry::new();
    assert_eq!(registry.get("set_working_dir").unwrap().callers, vec![AllowedCaller::Direct]);
}

#[test]
fn return_string_through_execute_json_text_format() {
    let registry = with_test_tools();
    let (result, image) = registry
        .execute_json(
            "default_tool",
            ToolOutputFormat::Text,
            called("Tool with default return_string (Display)."),
            true,
        )
        .unwrap();
    assert_eq!(image.unwrap().width, 1);
    assert!(!result.is_error, "should succeed");
    assert_eq!(result.content, "raw\noutput");
    assert!(result.invocation_description.contains("Tool with default return_string"));
}

#[test]
fn return_string_through_execute_json_json_format() {
    let registry = with_test_tools();
    let (result, image) = registry
        .execute_json("default_tool", ToolOutputFormat::Json, called("d"), false)
        .unwrap();
    assert!(image.is_none());
    assert!(!result.is_error, "should succeed");
    assert_eq!(result.content, r#""raw\noutput""#);
}

#[test]
fn empty_args_from_null() {
    assert!(read_empty_args(&Json::Null).is_ok());
}

#[test]
fn empty_args_from_empty_object() {
    assert!(read_empty_args(&Json::Object(vec![])).is_ok());
}

#[test]
fn empty_args_rejects_nonempty_object() {
    let value = Json::Object(vec![("key".to_string(), Json::Text("value".to_string()))]);
    match read_empty_args(&value) {
        Ok(_) => panic!("accepted"),
        Err(e) => assert_eq!(e, r#"expected null or empty object, got {"key":"value"}"#),
    }
}

#[test]
fn describe_invocation_json_uses_tool_description_fallback_on_bad_args() {
    let registry = with_test_tools();
    // Arguments that cannot be read have no description of their own.
    let desc = registry.describe_invocation("default_tool", None);
    assert_eq!(desc, "A tool with default settings");
}

#[test]
fn describe_invocation_json_returns_description_for_valid_args() {
    let registry = with_test_tools();
    let desc = registry
        .describe_invocation("default_tool", Some("A tool with default settings.".to_string()));
    assert_eq!(desc, "A tool with default settings.");
}

#[test]
fn describe_invocation_in_tool_output_is_populated_on_execute_json() {
    let registry = with_test_tools();
    let desc = registry.describe_invocation("default_tool", None);
    let (result, _) = registry
        .execute_json("default_tool", ToolOutputFormat::Text, called(&desc), false)
        .unwrap();
    assert!(
        !result.invocation_description.is_empty(),
        "invocation_description should be populated: {:?}",
        result.invocation_description,
    );
}

#[test]
fn describe_invocation_in_tool_output_is_populated_on_success() {
    let registry = with_test_tools();
    let desc = registry.describe_invocation("default_tool", None);
    let (result, _) = registry
        .execute_streaming_json("default_tool", ToolOutputFormat::Text, called(&desc), false)
        .unwrap();
    assert!(
        !result.invocation_description.is_empty(),
        "invocation_description should be populated: {:?}",
        result.invocation_description,
    );
}

#[test]
fn a_failed_call_is_an_error_output() {
    let registry = with_test_tools();
    let call = ToolCall { description: "d".to_string(), returned: Err("x".to_string()) };
    let (result, image) = registry
        .execute_json("default_tool", ToolOutputFormat::Text, Ok(call), true)
        .unwrap();
    assert!(image.is_none());
    assert!(matches!(
        registry.execute_json("default_tool", ToolOutputFormat::Text, Err("bad".to_string()), true),
        Err(ToolError::Json(m)) if m == "bad"
    ));
    assert!(result.is_error);
    assert_eq!(result.content, "x");
    assert_eq!(result.invocation_description, "d");
}

#[test]
fn an_unknown_tool_is_an_error() {
    let registry = ToolRegistry::new();
    assert!(matches!(
        registry.dispatch("nope"),
        Err(ToolError::Other(m)) if m == "unknown tool: nope"
    ));
    assert!(matches!(
        registry.execute_json("nope", ToolOutputFormat::Text, called("d"), true),
        Err(ToolError::Other(m)) if m == "unknown tool: nope"
    ));
    assert_eq!(registry.describe_invocation("nope", Some("d".to_string())), "nope");
    assert!(registry.describe_invocation_for("nope", None).is_none());
}

#[test]
fn a_registered_tool_is_found_and_replaced() {
    let mut registry = with_test_tools();
    registry.register(info("default_tool", "other", "Another", direct_callers()));
    assert_eq!(registry.get("default_tool").unwrap().description, "Another");
    let defs = registry.available_definitions(&vec!["other".to_string()]);
    assert_eq!(defs.len(), 1);
    assert!(defs[0].allowed_callers.is_none());
}

fn mcp_tool(name: &str) -> ToolInfo {
    info(name, "mcp", "A tool of a server", default_callers())
}

#[test]
fn an_unregistered_group_is_gone() {
    let mut registry = ToolRegistry::new();
    registry.register_dynamic_group("mcp".to_string(), "Server tools".to_string());
    registry.register_dynamic("mcp_a".to_string(), "mcp".to_string(), mcp_tool("a"));
    registry.register_dynamic("mcp_b".to_string(), "mcp".to_string(), mcp_tool("b"));
    // A tool is found under the name it was given and offered under its own.
    assert_eq!(registry.get("mcp_a").unwrap().name, "a");
    assert!(registry.get("a").is_none());
    let defs = registry.available_definitions(&vec!["mcp".to_string()]);
    assert_eq!(defs.iter().map(|d| d.name.as_str()).collect::<Vec<_>>(), vec!["a", "b"]);
    assert!(registry.group_names().contains(&"mcp".to_string()));
    let mut removed = registry.unregister_group("mcp");
    removed.sort();
    assert_eq!(removed, vec!["mcp_a".to_string(), "mcp_b".to_string()]);
    assert!(registry.get("mcp_a").is_none());
    assert!(!registry.group_names().contains(&"mcp".to_string()));
    assert!(registry.get("read_file").is_some());
}

#[test]
fn the_core_is_known_and_never_offered() {
    let registry = ToolRegistry::new();
    assert!(!registry.group_names().contains(&"core".to_string()));
    assert!(registry.known_group_names().contains(&"core".to_string()));
    assert_eq!(static_groups()[0].name, "core");
    assert_eq!(registry.groups().len(), static_groups().len());
}

#[test]
fn unknown_groups_are_named() {
    let known = ToolRegistry::new().known_group_names();
    assert!(unknown_group_names(&["git".to_string(), "core".to_string()], &known).is_none());
    assert_eq!(
        unknown_group_names(&["git".to_string(), "nope".to_string()], &known),
        Some(vec!["nope".to_string()])
    );
}
