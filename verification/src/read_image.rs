//! `read_image`: an image file for a model that can see.
//!
//! The file is read and brought into shape elsewhere.

use crate::encoding::short_size;
use crate::encoding;
use crate::error::{ToolExecError, tool_error, tool_error_with};
use crate::sanitize::{MAX_TOOL_OUTPUT_BYTES, truncate_tool_output};
use crate::sanitize;
use crate::stream_cap::copy_bytes;
use crate::text::{push_decimal, trim};
use crate::text;
use vstd::prelude::*;
use vstd::string::*;

verus! {

/// Arguments of `read_image`.
#[derive(Debug)]
pub struct ReadImageArgs {
    pub path: String,
}

/// An image that goes with the next request.
#[derive(Debug)]
pub struct ImageReference {
    pub path: String,
    pub mime_type: String,
    pub width: u32,
    pub height: u32,
    pub data: Vec<u8>,
}

/// What `read_image` gives back.
#[derive(Debug)]
pub struct ReadImageReturn {
    pub text: String,
    pub reference: ImageReference,
}

/// An image in the shape that models take.
#[derive(Debug)]
pub struct PreparedVisionImage {
    pub mime_type: String,
    pub width: u32,
    pub height: u32,
    pub data: Vec<u8>,
}

/// The tool itself.
pub struct ReadImage {}

/// What is said of an image.
pub open spec fn read_image_text(path: Seq<char>, prep: PreparedVisionImage) -> Seq<char> {
    "read image: "@ + path + " ("@ + text::decimal(prep.width as nat) + "x"@ + text::decimal(
        prep.height as nat,
    ) + ", "@ + prep.mime_type@ + ", "@ + encoding::decimal_size(prep.data@.len()) + ")"@
}

/// Says whether a path is given.
pub fn check_image_path(args: &ReadImageArgs) -> (r: Result<(), ToolExecError>)
    ensures
        match r {
            Ok(_) => text::trimmed(args.path@).len() > 0,
            Err(e) => text::trimmed(args.path@).len() == 0 && e@
                == "missing required string argument: path"@,
        },
{
    let t = trim(args.path.as_str());
    if t.as_str().is_empty() {
        Err(tool_error("missing required string argument: path"))
    } else {
        Ok(())
    }
}

/// Whether `r` gives the image that was found in the file `resolved`, or says why there is none.
pub open spec fn reads_image(
    args: ReadImageArgs,
    resolved: Seq<char>,
    prepared: Result<PreparedVisionImage, String>,
    r: Result<ReadImageReturn, ToolExecError>,
) -> bool {
    if text::trimmed(args.path@).len() == 0 {
        r matches Err(e) && e@ == "missing required string argument: path"@
    } else {
        match (prepared, r) {
            (Err(m), Err(e)) => e@ == "failed to read image: "@ + m@,
            (Ok(p), Ok(d)) => {
                &&& d.text@ == sanitize::truncated_at(
                    read_image_text(resolved, p),
                    MAX_TOOL_OUTPUT_BYTES as nat,
                )
                &&& d.reference.path@ == resolved
                &&& d.reference.mime_type@ == p.mime_type@
                &&& d.reference.width == p.width
                &&& d.reference.height == p.height
                &&& d.reference.data@ == p.data@
            },
            _ => false,
        }
    }
}

/// Makes the result of a call. `resolved` is the file, and `prepared` the image in it or why it
/// could not be read.
pub fn execute_read_image(
    args: &ReadImageArgs,
    resolved: &str,
    prepared: Result<PreparedVisionImage, String>,
) -> (r: Result<ReadImageReturn, ToolExecError>)
    ensures
        reads_image(*args, resolved@, prepared, r),
{
    match check_image_path(args) {
        Ok(_) => {},
        Err(e) => {
            return Err(e);
        },
    }
    let prep = match prepared {
        Ok(p) => p,
        Err(m) => {
            return Err(tool_error_with("failed to read image: ", m.as_str()));
        },
    };
    let mut text = "read image: ".to_owned();
    text.append(resolved);
    text.append(" (");
    push_decimal(&mut text, prep.width as u64);
    text.append("x");
    push_decimal(&mut text, prep.height as u64);
    text.append(", ");
    text.append(prep.mime_type.as_str());
    text.append(", ");
    text.append(short_size(prep.data.len() as u64).as_str());
    text.append(")");
    let text = truncate_tool_output(text.as_str());
    Ok(
        ReadImageReturn {
            text,
            reference: ImageReference {
                path: resolved.to_owned(),
                mime_type: prep.mime_type,
                width: prep.width,
                height: prep.height,
                data: prep.data,
            },
        },
    )
}

impl ReadImage {
    /// The tool.
    pub fn new() -> (t: Self)
        ensures
            t == (ReadImage {  }),
    {
        ReadImage {  }
    }

    /// A short text on a call.
    pub fn describe_invocation(&self, args: &ReadImageArgs) -> (r: String)
        ensures
            r@ == "Reading image `"@ + args.path@ + "`."@,
    {
        let mut out = "Reading image `".to_owned();
        out.append(args.path.as_str());
        out.append("`.");
        out
    }

    /// The text of a result.
    pub fn return_string(ret: &ReadImageReturn) -> (r: String)
        ensures
            r@ == ret.text@,
    {
        ret.text.clone()
    }

    /// The image of a result.
    pub fn extract_image_ref(&self, ret: &ReadImageReturn) -> (r: ImageReference)
        ensures
            r.path@ == ret.reference.path@,
            r.mime_type@ == ret.reference.mime_type@,
            r.width == ret.reference.width,
            r.height == ret.reference.height,
            r.data@ == ret.reference.data@,
    {
        let f = &ret.reference;
        ImageReference {
            path: f.path.clone(),
            mime_type: f.mime_type.clone(),
            width: f.width,
            height: f.height,
            data: copy_bytes(f.data.as_slice()),
        }
    }
}

} // verus!
