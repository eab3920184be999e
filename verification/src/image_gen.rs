//! `generate_image`: which model is asked, and what is made of its answer.
//!
//! The provider is reached elsewhere. A call runs in steps: before the request is sent, once a
//! provider is known, and once its answer has come.

use crate::encoding::{decode_base64, short_size};
use crate::encoding;
use crate::error::{ToolExecError, tool_error, tool_error_with};
use crate::matching::{ascii_lower, contains};
use crate::matching;
use crate::sanitize::{MAX_TOOL_OUTPUT_BYTES, truncate_tool_output};
use crate::sanitize;
use crate::text::{push_decimal, trim};
use crate::text;
use vstd::prelude::*;
use vstd::string::*;

verus! {

/// The size of the canvas.
#[derive(Debug, Clone, Copy, PartialEq, Eq, Structural)]
pub enum ImageSize {
    Auto,
    Square1024,
    Portrait1024x1536,
    Landscape1536x1024,
}

/// How much care goes into rendering.
#[derive(Debug, Clone, Copy, PartialEq, Eq, Structural)]
pub enum ImageQuality {
    Auto,
    Low,
    Medium,
    High,
}

/// The format of the image.
#[derive(Debug, Clone, Copy, PartialEq, Eq, Structural)]
pub enum OutputFormat {
    Png,
    Jpeg,
    Webp,
}

/// The background of the image.
#[derive(Debug, Clone, Copy, PartialEq, Eq, Structural)]
pub enum Background {
    Auto,
    Opaque,
    Transparent,
}

/// The name of a size.
pub open spec fn size_name(s: ImageSize) -> Seq<char> {
    match s {
        ImageSize::Auto => "auto"@,
        ImageSize::Square1024 => "1024x1024"@,
        ImageSize::Portrait1024x1536 => "1024x1536"@,
        ImageSize::Landscape1536x1024 => "1536x1024"@,
    }
}

/// The name of a quality.
pub open spec fn quality_name(q: ImageQuality) -> Seq<char> {
    match q {
        ImageQuality::Auto => "auto"@,
        ImageQuality::Low => "low"@,
        ImageQuality::Medium => "medium"@,
        ImageQuality::High => "high"@,
    }
}

/// The name of a format.
pub open spec fn format_name(f: OutputFormat) -> Seq<char> {
    match f {
        OutputFormat::Png => "png"@,
        OutputFormat::Jpeg => "jpeg"@,
        OutputFormat::Webp => "webp"@,
    }
}

/// The name of a background.
pub open spec fn background_name(b: Background) -> Seq<char> {
    match b {
        Background::Auto => "auto"@,
        Background::Opaque => "opaque"@,
        Background::Transparent => "transparent"@,
    }
}

impl ImageSize {
    /// The name of the size.
    pub fn as_str(self) -> (r: &'static str)
        ensures
            r@ == size_name(self),
    {
        match self {
            ImageSize::Auto => "auto",
            ImageSize::Square1024 => "1024x1024",
            ImageSize::Portrait1024x1536 => "1024x1536",
            ImageSize::Landscape1536x1024 => "1536x1024",
        }
    }
}

impl ImageQuality {
    /// The name of the quality.
    pub fn as_str(self) -> (r: &'static str)
        ensures
            r@ == quality_name(self),
    {
        match self {
            ImageQuality::Auto => "auto",
            ImageQuality::Low => "low",
            ImageQuality::Medium => "medium",
            ImageQuality::High => "high",
        }
    }
}

impl OutputFormat {
    /// The name of the format.
    pub fn as_str(self) -> (r: &'static str)
        ensures
            r@ == format_name(self),
    {
        match self {
            OutputFormat::Png => "png",
            OutputFormat::Jpeg => "jpeg",
            OutputFormat::Webp => "webp",
        }
    }
}

impl Background {
    /// The name of the background.
    pub fn as_str(self) -> (r: &'static str)
        ensures
            r@ == background_name(self),
    {
        match self {
            Background::Auto => "auto",
            Background::Opaque => "opaque",
            Background::Transparent => "transparent",
        }
    }
}

/// The media type of a format.
pub open spec fn format_mime(f: OutputFormat) -> Seq<char> {
    match f {
        OutputFormat::Png => "image/png"@,
        OutputFormat::Jpeg => "image/jpeg"@,
        OutputFormat::Webp => "image/webp"@,
    }
}

/// The media type of a format.
pub fn output_format_mime(format: OutputFormat) -> (r: &'static str)
    ensures
        r@ == format_mime(format),
{
    match format {
        OutputFormat::Png => "image/png",
        OutputFormat::Jpeg => "image/jpeg",
        OutputFormat::Webp => "image/webp",
    }
}

/// Arguments of `generate_image`.
#[derive(Debug)]
pub struct GenerateImageArgs {
    /// What to depict.
    pub prompt: String,
    pub model: Option<String>,
    pub size: Option<ImageSize>,
    pub quality: Option<ImageQuality>,
    pub output_format: Option<OutputFormat>,
    pub background: Option<Background>,
    /// What stands for the image where it cannot be shown.
    pub alt: Option<String>,
}

/// An image that can be shown.
#[derive(Debug, Clone)]
pub struct PreparedImage {
    pub mime_type: String,
    pub data: Vec<u8>,
    pub width: u32,
    pub height: u32,
    pub alt: Option<String>,
}

/// What `generate_image` gives back.
#[derive(Debug)]
pub struct DisplayImageReturn {
    pub text: String,
    pub image: PreparedImage,
}

/// The tool itself.
pub struct GenerateImage {}

/// How good the family of a model is, the best first; 5 where it is of no known family.
pub open spec fn tier(name: Seq<char>) -> nat {
    let low = matching::lowered(name);
    if matching::holds(low, "gpt-image"@) {
        0
    } else if matching::holds(low, "imagen"@) {
        1
    } else if matching::holds(low, "gemini-"@) && matching::holds(low, "image"@) {
        2
    } else if matching::holds(low, "flux"@) {
        3
    } else if matching::holds(low, "dall-e"@) {
        4
    } else {
        5
    }
}

/// How good the family of a model is.
pub fn model_tier(name: &str) -> (t: u8)
    ensures
        t == tier(name@),
        t <= 5,
{
    let lower = ascii_lower(name);
    let low = lower.as_str();
    if contains(low, "gpt-image") {
        0
    } else if contains(low, "imagen") {
        1
    } else if contains(low, "gemini-") && contains(low, "image") {
        2
    } else if contains(low, "flux") {
        3
    } else if contains(low, "dall-e") {
        4
    } else {
        5
    }
}

/// Whether candidate `i` is the one to take: of the best family that occurs, the first.
pub open spec fn best_candidate(candidates: Seq<String>, i: int) -> bool {
    &&& 0 <= i < candidates.len()
    &&& forall|j: int|
        0 <= j < candidates.len() ==> tier(candidates[i]@) <= tier((#[trigger] candidates[j])@)
    &&& forall|j: int| 0 <= j < i ==> tier(candidates[i]@) < tier((#[trigger] candidates[j])@)
}

/// Picks the model of a provider: the one asked for, else the best candidate of its catalog.
pub fn pick_image_model(slug: &str, candidates: &[String], explicit: Option<&str>) -> (r: Result<
    String,
    String,
>)
    ensures
        match explicit {
            Some(e) => r matches Ok(m) && m@ == e@,
            None => match r {
                Ok(m) => exists|i: int|
                    best_candidate(candidates@, i) && m@ == (#[trigger] candidates@[i])@,
                Err(e) => candidates@.len() == 0 && e@ == "provider `"@ + slug@
                    + "` has no image-output models in the catalog — pass `model` explicitly if your endpoint proxies one"@,
            },
        },
        explicit is None ==> (r is Err <==> candidates@.len() == 0),
{
    match explicit {
        Some(e) => {
            return Ok(e.to_owned());
        },
        None => {},
    }
    if candidates.len() == 0 {
        let mut m = "provider `".to_owned();
        m.append(slug);
        m.append(
            "` has no image-output models in the catalog — pass `model` explicitly if your endpoint proxies one",
        );
        return Err(m);
    }
    let mut best: usize = 0;
    let mut best_tier: u8 = model_tier(candidates[0].as_str());
    for k in 1..candidates.len()
        invariant
            best < k <= candidates@.len(),
            best_tier == tier(candidates@[best as int]@),
            forall|j: int| 0 <= j < k ==> best_tier <= tier((#[trigger] candidates@[j])@),
            forall|j: int| 0 <= j < best ==> best_tier < tier((#[trigger] candidates@[j])@),
    {
        let t: u8 = model_tier(candidates[k].as_str());
        if t < best_tier {
            best = k;
            best_tier = t;
        }
    }
    assert(best_candidate(candidates@, best as int));
    Ok(candidates[best].clone())
}

/// What a provider is asked for.
#[derive(Debug)]
pub struct ImageRequest {
    pub prompt: String,
    pub model: String,
    pub size: ImageSize,
    pub quality: ImageQuality,
    pub output_format: OutputFormat,
    pub background: Background,
}

/// Says whether a call may begin: not one that was cancelled, and not one without a session.
/// `cancelled` is the flag of the session, where there is one.
pub fn check_call(cancelled: Option<bool>) -> (r: Result<(), ToolExecError>)
    ensures
        match (cancelled, r) {
            (Some(true), Err(e)) => e@ == "image generation cancelled"@,
            (Some(false), Ok(_)) => true,
            (None, Err(e)) => e@
                == "generate_image requires a session context (direct invocation without context is not supported)"@,
            _ => false,
        },
{
    match cancelled {
        Some(true) => Err(tool_error("image generation cancelled")),
        Some(false) => Ok(()),
        None => Err(
            tool_error(
                "generate_image requires a session context (direct invocation without context is not supported)",
            ),
        ),
    }
}

/// Whether `m` is the model that is asked: the one named in the call, else the best of the
/// catalog, else the provider's own default.
pub open spec fn resolved_image_model(
    m: Seq<char>,
    explicit: Option<String>,
    candidates: Seq<String>,
    fallback: Seq<char>,
) -> bool {
    match explicit {
        Some(e) => m == e@,
        None => if candidates.len() == 0 {
            m == fallback
        } else {
            exists|i: int| best_candidate(candidates, i) && m == (#[trigger] candidates[i])@
        },
    }
}

/// Makes the request of a call out of what its provider can do. `candidates` are the image models
/// of the provider's catalog, `fallback` is the model that the provider uses by itself.
pub fn build_image_request(
    args: &GenerateImageArgs,
    slug: &str,
    candidates: &[String],
    fallback: &str,
) -> (r: ImageRequest)
    ensures
        r.prompt@ == args.prompt@,
        resolved_image_model(r.model@, args.model, candidates@, fallback@),
        r.size == (match args.size {
            Some(s) => s,
            None => ImageSize::Auto,
        }),
        r.quality == (match args.quality {
            Some(q) => q,
            None => ImageQuality::Auto,
        }),
        r.output_format == (match args.output_format {
            Some(f) => f,
            None => OutputFormat::Png,
        }),
        r.background == (match args.background {
            Some(b) => b,
            None => Background::Auto,
        }),
{
    let explicit = match &args.model {
        Some(m) => Some(m.as_str()),
        None => None,
    };
    let model = match pick_image_model(slug, candidates, explicit) {
        Ok(m) => m,
        Err(_) => fallback.to_owned(),
    };
    ImageRequest {
        prompt: args.prompt.clone(),
        model,
        size: match args.size {
            Some(s) => s,
            None => ImageSize::Auto,
        },
        quality: match args.quality {
            Some(q) => q,
            None => ImageQuality::Auto,
        },
        output_format: match args.output_format {
            Some(f) => f,
            None => OutputFormat::Png,
        },
        background: match args.background {
            Some(b) => b,
            None => Background::Auto,
        },
    }
}

/// The answer of a provider.
#[derive(Debug)]
pub struct ImageAnswer {
    /// The image in base64.
    pub image_b64: String,
    /// The model that made it.
    pub model: String,
    /// What the provider made of the prompt.
    pub revised_prompt: Option<String>,
}

/// The bytes of an answer, where the call was not cancelled meanwhile; `decoded` is what its
/// base64 text stands for.
pub open spec fn answer_bytes(
    cancelled: bool,
    decoded: Result<Seq<u8>, Seq<char>>,
) -> Result<Seq<u8>, Seq<char>> {
    if cancelled {
        Err("image generation cancelled"@)
    } else {
        match decoded {
            Ok(b) => Ok(b),
            Err(e) => Err("provider returned malformed base64 image data: "@ + e),
        }
    }
}

/// Takes the bytes out of an answer. One that came after the call was cancelled is thrown away.
pub fn decode_answer(cancelled: bool, answer: &ImageAnswer) -> (r: Result<Vec<u8>, ToolExecError>)
    ensures
        match (answer_bytes(cancelled, encoding::base64_bytes(text::trimmed(answer.image_b64@))), r) {
            (Ok(b), Ok(v)) => v@ == b,
            (Err(m), Err(e)) => e@ == m,
            _ => false,
        },
{
    if cancelled {
        return Err(tool_error("image generation cancelled"));
    }
    let text = trim(answer.image_b64.as_str());
    match decode_base64(text.as_str()) {
        Ok(b) => Ok(b),
        Err(e) => Err(
            tool_error_with("provider returned malformed base64 image data: ", e.as_str()),
        ),
    }
}

/// The text that goes with a generated image.
pub open spec fn generated_text(
    mime: Seq<char>,
    width: nat,
    height: nat,
    size: Seq<char>,
    model: Seq<char>,
    revised: Option<Seq<char>>,
) -> Seq<char> {
    "generated image ("@ + mime + ", "@ + text::decimal(width) + "x"@ + text::decimal(height) + ", "@ + size
        + ") via "@ + model + (match revised {
        Some(p) => "\nrevised prompt: "@ + p,
        None => Seq::empty(),
    })
}

/// The text for a missing image, where it says anything.
pub open spec fn kept_alt(alt: Option<String>) -> Option<Seq<char>> {
    match alt {
        Some(a) if text::trimmed(a@).len() > 0 => Some(a@),
        _ => None,
    }
}

fn keep_alt(alt: &Option<String>) -> (r: Option<String>)
    ensures
        sanitize::opt_view(r) == kept_alt(*alt),
{
    match alt {
        Some(a) => {
            let t = trim(a.as_str());
            if t.as_str().is_empty() {
                None
            } else {
                Some(a.clone())
            }
        },
        None => None,
    }
}

/// Whether `r` gives the image `data`, which was found to be what `prepared` says.
pub open spec fn gives_image(
    args: GenerateImageArgs,
    answer: ImageAnswer,
    data: Seq<u8>,
    prepared: Result<(String, u32, u32), String>,
    r: Result<DisplayImageReturn, ToolExecError>,
) -> bool {
    match (prepared, r) {
        (Ok(p), Ok(d)) => {
            &&& d.text@ == sanitize::truncated_at(
                generated_text(
                    p.0@,
                    p.1 as nat,
                    p.2 as nat,
                    encoding::decimal_size(data.len()),
                    answer.model@,
                    sanitize::opt_view(answer.revised_prompt),
                ),
                MAX_TOOL_OUTPUT_BYTES as nat,
            )
            &&& d.image.mime_type@ == p.0@
            &&& d.image.data@ == data
            &&& d.image.width == p.1
            &&& d.image.height == p.2
            &&& sanitize::opt_view(d.image.alt) == kept_alt(args.alt)
        },
        (Err(m), Err(e)) => e@ == "generated image failed validation: "@ + m@,
        _ => false,
    }
}

/// Makes the result of a call. `data` is the image, and `prepared` its media type, width and
/// height as it was found, or why it cannot be shown.
pub fn finish_image(
    args: &GenerateImageArgs,
    answer: &ImageAnswer,
    data: Vec<u8>,
    prepared: Result<(String, u32, u32), String>,
) -> (r: Result<DisplayImageReturn, ToolExecError>)
    ensures
        gives_image(*args, *answer, data@, prepared, r),
{
    let (mime_type, width, height) = match prepared {
        Ok(p) => p,
        Err(m) => {
            return Err(tool_error_with("generated image failed validation: ", m.as_str()));
        },
    };
    let revised = match &answer.revised_prompt {
        Some(p) => {
            let mut s = "\nrevised prompt: ".to_owned();
            s.append(p.as_str());
            s
        },
        None => String::new(),
    };
    let mut text = "generated image (".to_owned();
    text.append(mime_type.as_str());
    text.append(", ");
    push_decimal(&mut text, width as u64);
    text.append("x");
    push_decimal(&mut text, height as u64);
    text.append(", ");
    text.append(short_size(data.len() as u64).as_str());
    text.append(") via ");
    text.append(answer.model.as_str());
    text.append(revised.as_str());
    let text = truncate_tool_output(text.as_str());
    Ok(
        DisplayImageReturn {
            text,
            image: PreparedImage { mime_type, data, width, height, alt: keep_alt(&args.alt) },
        },
    )
}

/// An optional part of the text on a call.
pub open spec fn noted(label: Seq<char>, value: Option<Seq<char>>, end: Seq<char>) -> Seq<char> {
    match value {
        Some(v) => label + v + end,
        None => Seq::empty(),
    }
}

/// An optional part of the text on a call.
pub fn note(label: &str, value: Option<&str>, end: &str) -> (r: String)
    ensures
        r@ == noted(label@, crate::paths::opt_str(value), end@),
{
    match value {
        Some(v) => {
            let mut s = label.to_owned();
            s.append(v);
            s.append(end);
            s
        },
        None => String::new(),
    }
}

/// The text on a call.
pub open spec fn image_invocation(args: GenerateImageArgs) -> Seq<char> {
    "Generating image from prompt: "@ + args.prompt@ + "."@ + noted(
        " Model: `"@,
        sanitize::opt_view(args.model),
        "`."@,
    ) + noted(
        " Size: "@,
        match args.size {
            Some(s) => Some(size_name(s)),
            None => None,
        },
        "."@,
    ) + noted(
        " Quality: "@,
        match args.quality {
            Some(q) => Some(quality_name(q)),
            None => None,
        },
        "."@,
    ) + noted(
        " Format: "@,
        match args.output_format {
            Some(f) => Some(format_name(f)),
            None => None,
        },
        "."@,
    ) + noted(
        " Background: "@,
        match args.background {
            Some(b) => Some(background_name(b)),
            None => None,
        },
        "."@,
    ) + noted(" Alt text: "@, sanitize::opt_view(args.alt), "."@)
}

impl GenerateImage {
    /// The tool.
    pub fn new() -> (t: Self)
        ensures
            t == (GenerateImage {  }),
    {
        GenerateImage {  }
    }

    /// A short text on a call.
    pub fn describe_invocation(&self, args: &GenerateImageArgs) -> (r: String)
        ensures
            r@ == image_invocation(*args),
    {
        let model = match &args.model {
            Some(m) => note(" Model: `", Some(m.as_str()), "`."),
            None => String::new(),
        };
        let size = match args.size {
            Some(s) => note(" Size: ", Some(s.as_str()), "."),
            None => String::new(),
        };
        let quality = match args.quality {
            Some(q) => note(" Quality: ", Some(q.as_str()), "."),
            None => String::new(),
        };
        let format = match args.output_format {
            Some(f) => note(" Format: ", Some(f.as_str()), "."),
            None => String::new(),
        };
        let background = match args.background {
            Some(b) => note(" Background: ", Some(b.as_str()), "."),
            None => String::new(),
        };
        let alt = match &args.alt {
            Some(a) => note(" Alt text: ", Some(a.as_str()), "."),
            None => String::new(),
        };
        let mut out = "Generating image from prompt: ".to_owned();
        out.append(args.prompt.as_str());
        out.append(".");
        out.append(model.as_str());
        out.append(size.as_str());
        out.append(quality.as_str());
        out.append(format.as_str());
        out.append(background.as_str());
        out.append(alt.as_str());
        out
    }

    /// The image of a result.
    pub fn extract_image(&self, ret: &DisplayImageReturn) -> (r: PreparedImage)
        ensures
            r.mime_type@ == ret.image.mime_type@,
            r.data@ == ret.image.data@,
            r.width == ret.image.width,
            r.height == ret.image.height,
            sanitize::opt_view(r.alt) == sanitize::opt_view(ret.image.alt),
    {
        let image = &ret.image;
        let alt = match &image.alt {
            Some(a) => Some(a.clone()),
            None => None,
        };
        let data = crate::stream_cap::copy_bytes(image.data.as_slice());
        PreparedImage {
            mime_type: image.mime_type.clone(),
            data,
            width: image.width,
            height: image.height,
            alt,
        }
    }
}

/// A model that a call names is always the one that is asked.
pub proof fn law_named_model_wins(
    m: Seq<char>,
    explicit: String,
    candidates: Seq<String>,
    fallback: Seq<char>,
)
    requires
        resolved_image_model(m, Some(explicit), candidates, fallback),
    ensures
        m == explicit@,
{
}

/// No candidate of a better family is passed over, and of one family the catalog's first is taken:
/// the pick is the same however often it is made.
pub proof fn law_pick_is_unique(candidates: Seq<String>, i: int, j: int)
    requires
        best_candidate(candidates, i),
        best_candidate(candidates, j),
    ensures
        i == j,
{
    if i < j {
        assert(tier(candidates[j]@) < tier(candidates[i]@));
        assert(tier(candidates[i]@) <= tier(candidates[j]@));
    } else if j < i {
        assert(tier(candidates[i]@) < tier(candidates[j]@));
        assert(tier(candidates[j]@) <= tier(candidates[i]@));
    }
}

/// The pick does not depend on the case of letters.
pub proof fn law_case_does_not_matter(a: Seq<char>, b: Seq<char>)
    requires
        matching::lowered(a) == matching::lowered(b),
    ensures
        tier(a) == tier(b),
{
}

} // verus!
