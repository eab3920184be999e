//! What the image tools are for: the provider is asked for the image that the call describes, and the
//! image that comes back is the one that is given.

use crate::encoding;
use crate::error::ToolExecError;
use crate::image_gen::{Background, DisplayImageReturn, GenerateImageArgs, ImageAnswer, ImageQuality, ImageRequest, ImageSize, OutputFormat};
use crate::image_gen;
use crate::image_run::{ImageRun, ImageStep};
use crate::image_run;
use crate::matching;
use crate::read_image::{PreparedVisionImage, ReadImageArgs, ReadImageReturn};
use crate::read_image;
use crate::text;
use crate::text_laws;
use vstd::prelude::*;
use vstd::string::*;

verus! {

/// A provider is asked for what the call says, word for word; for the automatic size, quality and
/// background and a PNG where it says nothing.
pub proof fn law_request_is_what_the_call_says(
    args: GenerateImageArgs,
    candidates: Seq<String>,
    fallback: Seq<char>,
    q: ImageRequest,
)
    requires
        image_run::asks_for(args, candidates, fallback, q),
    ensures
        q.prompt@ == args.prompt@,
        args.model is Some ==> q.model@ == args.model->0@,
        args.size is Some ==> q.size == args.size->0,
        args.size is None ==> q.size is Auto,
        args.quality is Some ==> q.quality == args.quality->0,
        args.quality is None ==> q.quality is Auto,
        args.output_format is Some ==> q.output_format == args.output_format->0,
        args.output_format is None ==> q.output_format is Png,
        args.background is Some ==> q.background == args.background->0,
        args.background is None ==> q.background is Auto,
        args.model is None && candidates.len() == 0 ==> q.model@ == fallback,
        args.model is None && candidates.len() > 0 ==> exists|i: int|
            0 <= i < candidates.len() && q.model@ == (#[trigger] candidates[i])@,
{
}

/// A model of the first family is taken before any other, the first that the catalog names; then one
/// of the second; and one that is of no family only where there is no other.
pub proof fn law_best_family_is_taken(candidates: Seq<String>, i: int, j: int)
    requires
        image_gen::best_candidate(candidates, i),
        0 <= j < candidates.len(),
    ensures
        ({
            let a = matching::lowered(candidates[i]@);
            let b = matching::lowered(candidates[j]@);
            &&& matching::holds(b, "gpt-image"@) ==> matching::holds(a, "gpt-image"@) && i <= j
            &&& matching::holds(b, "imagen"@) ==> matching::holds(a, "gpt-image"@)
                || matching::holds(a, "imagen"@)
            &&& matching::holds(b, "gemini-"@) && matching::holds(b, "image"@) ==> matching::holds(
                a,
                "gpt-image"@,
            ) || matching::holds(a, "imagen"@) || matching::holds(a, "gemini-"@)
            &&& matching::holds(b, "flux"@) ==> matching::holds(a, "gpt-image"@) || matching::holds(
                a,
                "imagen"@,
            ) || matching::holds(a, "gemini-"@) || matching::holds(a, "flux"@)
            &&& matching::holds(b, "dall-e"@) ==> matching::holds(a, "gpt-image"@)
                || matching::holds(a, "imagen"@) || matching::holds(a, "gemini-"@)
                || matching::holds(a, "flux"@) || matching::holds(a, "dall-e"@)
        }),
{
    assert(image_gen::tier(candidates[i]@) <= image_gen::tier(candidates[j]@));
    if j < i {
        assert(image_gen::tier(candidates[i]@) < image_gen::tier(candidates[j]@));
    }
}

/// Where text stands within another it is found there, and what is found stands there.
pub proof fn law_held_text_is_found(before: Seq<char>, needle: Seq<char>, after: Seq<char>)
    ensures
        matching::holds(before + needle + after, needle),
        matching::begins(needle + after, needle),
        matching::ends(before + needle, needle),
        needle.len() > before.len() ==> !matching::holds(before, needle),
{
    let all = before + needle + after;
    let n = before.len() as int;
    assert(all.subrange(n, n + needle.len()) =~= needle);
    assert(matching::stands_at(all, needle, n));
    assert((needle + after).subrange(0, needle.len() as int) =~= needle);
    assert((before + needle).subrange(n, n + needle.len()) =~= needle);
}

/// An answer that was not cancelled and can be decoded is looked at byte by byte, as an image of the
/// format that was asked for.
pub proof fn law_answer_is_looked_at(
    args: GenerateImageArgs,
    format: OutputFormat,
    answer: ImageAnswer,
    bytes: Seq<u8>,
    r: (ImageRun, ImageStep),
)
    requires
        image_run::generated_follows(args, format, Ok(answer), false, Ok(bytes), r),
    ensures
        r.1 matches ImageStep::Prepare(mime, data) && data@ == bytes && (match format {
            OutputFormat::Png => mime@ == "image/png"@,
            OutputFormat::Jpeg => mime@ == "image/jpeg"@,
            OutputFormat::Webp => mime@ == "image/webp"@,
        }),
        r.0 matches ImageRun::Preparing(g, h, data) && g == args && h == answer && data@ == bytes,
{
}

/// An answer that is no base64, or that the provider refused, is an error that says so.
pub proof fn law_bad_answers_are_errors(
    args: GenerateImageArgs,
    format: OutputFormat,
    answer: ImageAnswer,
    why: Seq<char>,
    m: String,
    r: (ImageRun, ImageStep),
    s: (ImageRun, ImageStep),
)
    requires
        image_run::generated_follows(args, format, Ok(answer), false, Err(why), r),
        image_run::generated_follows(args, format, Err(m), false, Err(why), s),
    ensures
        r.1 matches ImageStep::Finish(Err(e)) && e@
            == "provider returned malformed base64 image data: "@ + why,
        s.1 matches ImageStep::Finish(Err(e)) && e@ == "image generation failed: "@ + m@,
{
}

/// The text on an image says its media type, its width before its height, its size and the model
/// that made it.
pub proof fn law_image_text_says_what_it_is(
    mime: Seq<char>,
    width: nat,
    height: nat,
    size: Seq<char>,
    model: Seq<char>,
    revised: Seq<char>,
)
    ensures
        image_gen::generated_text(mime, width, height, size, model, None) == "generated image ("@ + mime
            + ", "@ + text::decimal(width) + "x"@ + text::decimal(height) + ", "@ + size + ") via "@
            + model,
        image_gen::generated_text(mime, width, height, size, model, Some(revised))
            == image_gen::generated_text(mime, width, height, size, model, None)
            + "\nrevised prompt: "@ + revised,
{
    let t = image_gen::generated_text(mime, width, height, size, model, None);
    assert(t =~= "generated image ("@ + mime + ", "@ + text::decimal(width) + "x"@ + text::decimal(
        height,
    ) + ", "@ + size + ") via "@ + model);
    assert(image_gen::generated_text(mime, width, height, size, model, Some(revised)) =~= t
        + "\nrevised prompt: "@ + revised);
}

/// The text that stands for an image is kept as it was given, unless it is blank.
pub proof fn law_given_alt_is_kept(alt: String, k: int)
    requires
        0 <= k < alt@.len(),
        '!' <= alt@[k] <= '~',
    ensures
        image_gen::kept_alt(Some(alt)) == Some(alt@),
        image_gen::kept_alt(None) is None,
{
    text_laws::law_trimming_takes_only_white_space(alt@);
    assert(text::trimmed(alt@).contains(alt@[k]));
}

/// The text on an image that was read says its path, its width before its height, its media type and
/// the size of its bytes.
pub proof fn law_read_image_says_what_it_is(path: Seq<char>, p: PreparedVisionImage)
    ensures
        read_image::read_image_text(path, p) == "read image: "@ + path + " ("@ + text::decimal(
            p.width as nat,
        ) + "x"@ + text::decimal(p.height as nat) + ", "@ + p.mime_type@ + ", "@
            + encoding::decimal_size(p.data@.len()) + ")"@,
{
}

/// An image that was read is given as it was found: its bytes, its media type, its width and its
/// height, under the file's path.
pub proof fn law_read_image_is_given(
    args: ReadImageArgs,
    k: int,
    resolved: Seq<char>,
    p: PreparedVisionImage,
    r: Result<ReadImageReturn, ToolExecError>,
)
    requires
        0 <= k < args.path@.len(),
        '!' <= args.path@[k] <= '~',
        read_image::reads_image(args, resolved, Ok(p), r),
    ensures
        r matches Ok(d) && d.reference.data@ == p.data@ && d.reference.mime_type@ == p.mime_type@
            && d.reference.width == p.width && d.reference.height == p.height && d.reference.path@
            == resolved,
{
    text_laws::law_trimming_takes_only_white_space(args.path@);
    assert(text::trimmed(args.path@).contains(args.path@[k]));
}

/// An image that was generated is given as it was found: its bytes, its media type, its width and
/// its height.
pub proof fn law_generated_image_is_given(
    args: GenerateImageArgs,
    answer: ImageAnswer,
    data: Seq<u8>,
    p: (String, u32, u32),
    m: String,
    r: Result<DisplayImageReturn, ToolExecError>,
    s: Result<DisplayImageReturn, ToolExecError>,
)
    requires
        image_gen::gives_image(args, answer, data, Ok(p), r),
        image_gen::gives_image(args, answer, data, Err(m), s),
    ensures
        r matches Ok(d) && d.image.data@ == data && d.image.mime_type@ == p.0@ && d.image.width
            == p.1 && d.image.height == p.2,
        s matches Err(e) && e@ == "generated image failed validation: "@ + m@,
{
}

/// The names that a provider knows sizes, qualities, formats and backgrounds by: a size is its width
/// before its height.
pub proof fn law_choices_have_their_names()
    ensures
        image_gen::size_name(ImageSize::Square1024) == "1024x1024"@,
        image_gen::size_name(ImageSize::Portrait1024x1536) == "1024x1536"@,
        image_gen::size_name(ImageSize::Landscape1536x1024) == "1536x1024"@,
        image_gen::quality_name(ImageQuality::Low) == "low"@,
        image_gen::quality_name(ImageQuality::Medium) == "medium"@,
        image_gen::quality_name(ImageQuality::High) == "high"@,
        image_gen::format_name(OutputFormat::Png) == "png"@,
        image_gen::format_name(OutputFormat::Jpeg) == "jpeg"@,
        image_gen::format_name(OutputFormat::Webp) == "webp"@,
        image_gen::background_name(Background::Opaque) == "opaque"@,
        image_gen::background_name(Background::Transparent) == "transparent"@,
        image_gen::size_name(ImageSize::Auto) == image_gen::quality_name(ImageQuality::Auto),
        image_gen::size_name(ImageSize::Auto) == image_gen::background_name(Background::Auto),
{
}

/// The image of an answer is read from its base64 text, whatever white space stands around that.
pub proof fn law_answer_text_is_its_base64(a: ImageAnswer)
    requires
        a.image_b64@.len() > 0,
        '!' <= a.image_b64@[0] <= '~',
        '!' <= a.image_b64@.last() <= '~',
    ensures
        image_run::answer_text(Ok(a)) == a.image_b64@,
{
    text_laws::law_trimming_takes_only_white_space(a.image_b64@);
}

} // verus!
