use choreo_tools::error::ToolExecError;
use choreo_tools::read_image::{
    ImageReference, PreparedVisionImage, ReadImage, ReadImageArgs, ReadImageReturn,
    execute_read_image,
};

fn prepared(mime: &str, width: u32, height: u32) -> Result<PreparedVisionImage, String> {
    Ok(PreparedVisionImage { mime_type: mime.to_string(), width, height, data: vec![7; 1200] })
}

fn run(
    path: &str,
    prepared: Result<PreparedVisionImage, String>,
) -> Result<ReadImageReturn, ToolExecError> {
    execute_read_image(&ReadImageArgs { path: path.to_string() }, path, prepared)
}

#[test]
fn reads_image_and_reports_metadata() {
    let out = run("/tmp/x.png", prepared("image/jpeg", 3, 2)).unwrap().text;
    assert!(out.contains("read image:"), "{out}");
    assert!(out.contains("3x2"), "{out}");
    assert!(out.contains("image/jpeg"), "{out}");
    assert_eq!(out, "read image: /tmp/x.png (3x2, image/jpeg, 1.2KB)");
}

#[test]
fn exposes_image_reference_via_hook() {
    let tool = ReadImage::new();
    let ret = run("/tmp/x.png", prepared("image/jpeg", 3, 2)).expect("execute");
    let reference = tool.extract_image_ref(&ret);
    assert_eq!(reference.mime_type, "image/jpeg");
    assert_eq!(reference.width, 3);
    assert_eq!(reference.height, 2);
    assert_eq!(reference.path, "/tmp/x.png");
    assert_eq!(reference.data, vec![7; 1200]);
    // The reference is read off the return value, so it is present on every call.
    assert_eq!(tool.extract_image_ref(&ret).path, "/tmp/x.png");
}

#[test]
fn return_string_is_the_text_handle() {
    let ret = run("/tmp/x.png", prepared("image/jpeg", 3, 2)).expect("execute");
    assert_eq!(ReadImage::return_string(&ret), ret.text);
}

#[test]
fn serializes_to_plain_string() {
    let ret = ReadImageReturn {
        text: "read image: hello".to_string(),
        reference: ImageReference {
            path: "/tmp/x.png".to_string(),
            mime_type: "image/png".to_string(),
            width: 1,
            height: 1,
            data: Vec::new(),
        },
    };
    let json = serde_json::to_string(&ReadImage::return_string(&ret)).unwrap();
    assert_eq!(json, r#""read image: hello""#);
}

#[test]
fn read_image_rejects_missing_path() {
    let err = run("  ", prepared("image/png", 1, 1)).unwrap_err();
    assert!(err.to_string().contains("missing required"));
}

#[test]
fn rejects_non_image_file() {
    let err = run("/tmp/x.txt", Err("unsupported".to_string())).unwrap_err();
    assert!(err.to_string().contains("failed to read image"), "{}", err.to_string());
}

#[test]
fn a_read_is_described() {
    let args = ReadImageArgs { path: "a.png".to_string() };
    assert_eq!(ReadImage::new().describe_invocation(&args), "Reading image `a.png`.");
}
