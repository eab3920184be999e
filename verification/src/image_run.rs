//! A call of `generate_image`, step by step.
//!
//! The daemon is asked for a provider, the provider for an image, and the image is looked at; each
//! of these is done elsewhere and answered with an event.

use crate::encoding;
use crate::error::{ToolExecError, tool_error_with};
use crate::image_gen::{Background, DisplayImageReturn, GenerateImageArgs, ImageAnswer, ImageQuality, ImageRequest, ImageSize, OutputFormat, build_image_request, check_call, decode_answer, finish_image, output_format_mime};
use crate::image_gen;
use crate::text;
use vstd::prelude::*;
use vstd::string::*;

verus! {

/// What became of asking for a provider.
#[derive(Debug)]
pub enum ProviderReply {
    /// The daemon was not reached.
    Unreached(String),
    /// The daemon did not answer.
    Silent(String),
    /// There is none.
    Refused(String),
    /// Its name, the image models of its catalog, and the model it uses by itself.
    Found { slug: String, candidates: Vec<String>, fallback: String },
}

/// A call on its way.
#[derive(Debug)]
pub enum ImageRun {
    /// A provider is being looked for.
    Asking(GenerateImageArgs),
    /// The provider is making an image.
    Generating(GenerateImageArgs, OutputFormat),
    /// The image is being looked at.
    Preparing(GenerateImageArgs, ImageAnswer, Vec<u8>),
    Done,
}

/// What is to be done next.
#[derive(Debug)]
pub enum ImageStep {
    AskProvider,
    Generate(ImageRequest),
    /// Look at bytes that are meant to be an image of a media type.
    Prepare(String, Vec<u8>),
    Finish(Result<DisplayImageReturn, ToolExecError>),
}

/// Whether a step ends a call with this error.
pub open spec fn image_fails(s: ImageStep, message: Seq<char>) -> bool {
    s matches ImageStep::Finish(Err(e)) && e@ == message
}

/// The format of the image that a call asks for.
pub open spec fn wanted_format(args: GenerateImageArgs) -> OutputFormat {
    match args.output_format {
        Some(f) => f,
        None => OutputFormat::Png,
    }
}

/// Whether `q` is what a provider is asked for.
pub open spec fn asks_for(
    args: GenerateImageArgs,
    candidates: Seq<String>,
    fallback: Seq<char>,
    q: ImageRequest,
) -> bool {
    &&& q.prompt@ == args.prompt@
    &&& image_gen::resolved_image_model(q.model@, args.model, candidates, fallback)
    &&& q.size == (match args.size {
        Some(s) => s,
        None => ImageSize::Auto,
    })
    &&& q.quality == (match args.quality {
        Some(s) => s,
        None => ImageQuality::Auto,
    })
    &&& q.output_format == wanted_format(args)
    &&& q.background == (match args.background {
        Some(b) => b,
        None => Background::Auto,
    })
}

/// Begins a call. `cancelled` is the flag of the session, where there is one.
pub fn begin_image(args: GenerateImageArgs, cancelled: Option<bool>) -> (r: (ImageRun, ImageStep))
    ensures
        match cancelled {
            Some(true) => r.0 is Done && image_fails(r.1, "image generation cancelled"@),
            Some(false) => r.0 == ImageRun::Asking(args) && r.1 is AskProvider,
            None => r.0 is Done && image_fails(
                r.1,
                "generate_image requires a session context (direct invocation without context is not supported)"@,
            ),
        },
{
    match check_call(cancelled) {
        Ok(_) => (ImageRun::Asking(args), ImageStep::AskProvider),
        Err(e) => (ImageRun::Done, ImageStep::Finish(Err(e))),
    }
}

/// Goes on once the daemon was asked for a provider.
pub fn provider_answered(args: GenerateImageArgs, reply: ProviderReply) -> (r: (
    ImageRun,
    ImageStep,
))
    ensures
        match reply {
            ProviderReply::Unreached(m) => r.0 is Done && image_fails(
                r.1,
                "failed to reach the daemon command loop for image provider resolution: "@ + m@,
            ),
            ProviderReply::Silent(m) => r.0 is Done && image_fails(
                r.1,
                "daemon dropped the image provider reply channel: "@ + m@,
            ),
            ProviderReply::Refused(m) => r.0 is Done && image_fails(r.1, m@),
            ProviderReply::Found { slug, candidates, fallback } => {
                &&& r.0 == ImageRun::Generating(args, wanted_format(args))
                &&& r.1 matches ImageStep::Generate(q)
                &&& asks_for(args, candidates@, fallback@, q)
            },
        },
{
    match reply {
        ProviderReply::Unreached(m) => (
            ImageRun::Done,
            ImageStep::Finish(
                Err(
                    tool_error_with(
                        "failed to reach the daemon command loop for image provider resolution: ",
                        m.as_str(),
                    ),
                ),
            ),
        ),
        ProviderReply::Silent(m) => (
            ImageRun::Done,
            ImageStep::Finish(
                Err(
                    tool_error_with(
                        "daemon dropped the image provider reply channel: ",
                        m.as_str(),
                    ),
                ),
            ),
        ),
        ProviderReply::Refused(m) => (ImageRun::Done, ImageStep::Finish(Err(ToolExecError(m)))),
        ProviderReply::Found { slug, candidates, fallback } => {
            let request = build_image_request(
                &args,
                slug.as_str(),
                candidates.as_slice(),
                fallback.as_str(),
            );
            let format = request.output_format;
            (ImageRun::Generating(args, format), ImageStep::Generate(request))
        },
    }
}

/// What follows an answer of the provider, where `decoded` is what its base64 text stands for.
pub open spec fn generated_follows(
    args: GenerateImageArgs,
    format: OutputFormat,
    answer: Result<ImageAnswer, String>,
    cancelled: bool,
    decoded: Result<Seq<u8>, Seq<char>>,
    r: (ImageRun, ImageStep),
) -> bool {
    match answer {
        Err(m) => r.0 is Done && image_fails(r.1, "image generation failed: "@ + m@),
        Ok(a) => match image_gen::answer_bytes(cancelled, decoded) {
            Err(m) => r.0 is Done && image_fails(r.1, m),
            Ok(b) => {
                &&& r.0 matches ImageRun::Preparing(g, h, data)
                &&& g == args
                &&& h == a
                &&& data@ == b
                &&& r.1 matches ImageStep::Prepare(mime, bytes)
                &&& mime@ == image_gen::format_mime(format)
                &&& bytes@ == b
            },
        },
    }
}

/// The base64 text of an answer, without white space around it.
pub open spec fn answer_text(answer: Result<ImageAnswer, String>) -> Seq<char> {
    match answer {
        Ok(a) => text::trimmed(a.image_b64@),
        Err(_) => Seq::empty(),
    }
}

/// Goes on once the provider has answered. `cancelled` is the flag of the session by then: what was
/// made for a call that was cancelled is thrown away.
pub fn image_answered(
    args: GenerateImageArgs,
    format: OutputFormat,
    answer: Result<ImageAnswer, String>,
    cancelled: bool,
) -> (r: (ImageRun, ImageStep))
    ensures
        generated_follows(args, format, answer, cancelled, encoding::base64_bytes(answer_text(answer)), r),
{
    let a = match answer {
        Ok(a) => a,
        Err(m) => {
            return (
                ImageRun::Done,
                ImageStep::Finish(Err(tool_error_with("image generation failed: ", m.as_str()))),
            );
        },
    };
    match decode_answer(cancelled, &a) {
        Err(e) => (ImageRun::Done, ImageStep::Finish(Err(e))),
        Ok(data) => {
            let copy = crate::stream_cap::copy_bytes(data.as_slice());
            let mime = output_format_mime(format).to_owned();
            (ImageRun::Preparing(args, a, copy), ImageStep::Prepare(mime, data))
        },
    }
}

/// Ends a call once the image was looked at: `prepared` is its media type, width and height, or why
/// it cannot be shown.
pub fn image_prepared(
    args: GenerateImageArgs,
    answer: ImageAnswer,
    data: Vec<u8>,
    prepared: Result<(String, u32, u32), String>,
) -> (r: (ImageRun, ImageStep))
    ensures
        r.0 is Done,
        r.1 matches ImageStep::Finish(d) && image_gen::gives_image(args, answer, data@, prepared, d),
{
    let r = finish_image(&args, &answer, data, prepared);
    (ImageRun::Done, ImageStep::Finish(r))
}

/// A call that was cancelled gives no image, whenever that was noticed: before anything was sent, or
/// once the provider had answered.
pub proof fn law_cancelled_call_gives_no_image(
    args: GenerateImageArgs,
    format: OutputFormat,
    answer: ImageAnswer,
    decoded: Result<Seq<u8>, Seq<char>>,
    r: (ImageRun, ImageStep),
)
    requires
        generated_follows(args, format, Ok(answer), true, decoded, r),
    ensures
        r.0 is Done,
        image_fails(r.1, "image generation cancelled"@),
{
}

} // verus!
