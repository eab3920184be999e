use choreo_tools::encoding::decode_image_dimensions;
use choreo_tools::image_gen::{
    Background, DisplayImageReturn, GenerateImage, GenerateImageArgs, ImageAnswer, ImageQuality,
    ImageSize, OutputFormat, build_image_request, model_tier, output_format_mime,
    pick_image_model,
};
use choreo_tools::image_run::{
    ImageRun, ImageStep, ProviderReply, begin_image, image_answered, image_prepared,
    provider_answered,
};
use choreo_tools::error::ToolExecError;
use base64::Engine;
use base64::engine::general_purpose::STANDARD as BASE64;
use image::ImageFormat;
use std::io::Cursor;

fn candidates(list: &[&str]) -> Vec<String> {
    list.iter().map(|s| s.to_string()).collect()
}

#[test]
fn pick_image_model_explicit_wins() {
    let list = candidates(&["gpt-image-1", "flux-1"]);
    assert_eq!(
        pick_image_model("openai", &list, Some("flux-1")).unwrap(),
        "flux-1"
    );
    // Explicit wins even when the name is not in the catalog: the API
    // gives a clean 4xx for bad names, which is the pass-through contract.
    assert_eq!(
        pick_image_model("openai", &list, Some("my-proxy-model")).unwrap(),
        "my-proxy-model"
    );
}

#[test]
fn pick_image_model_gpt_image_beats_flux() {
    let list = candidates(&["flux-1.1-pro", "gpt-image-1"]);
    assert_eq!(pick_image_model("x", &list, None).unwrap(), "gpt-image-1");
}

#[test]
fn pick_image_model_imagen_before_gemini_image() {
    let list = candidates(&["gemini-2.0-flash-preview-image-generation", "imagen-3"]);
    assert_eq!(pick_image_model("x", &list, None).unwrap(), "imagen-3");
}

#[test]
fn pick_image_model_gemini_image_requires_both_substrings() {
    // A bare gemini chat model does not satisfy the gemini-image tier;
    // the composite one does.
    let list = candidates(&[
        "gemini-2.0-flash",
        "gemini-2.0-flash-preview-image-generation",
    ]);
    assert_eq!(
        pick_image_model("x", &list, None).unwrap(),
        "gemini-2.0-flash-preview-image-generation"
    );
}

#[test]
fn pick_image_model_dall_e_last_and_fallback_first() {
    let list = candidates(&["dall-e-3", "flux-schnell"]);
    assert_eq!(pick_image_model("x", &list, None).unwrap(), "flux-schnell");
    let only = candidates(&["dall-e-3"]);
    assert_eq!(pick_image_model("x", &only, None).unwrap(), "dall-e-3");
    // No tier matches at all → the catalog's first candidate.
    let none = candidates(&["sdxl", "sd3"]);
    assert_eq!(pick_image_model("x", &none, None).unwrap(), "sdxl");
}

#[test]
fn pick_image_model_case_insensitive_and_empty_candidates_error() {
    let list = candidates(&["GPT-IMAGE-1"]);
    assert_eq!(pick_image_model("x", &list, None).unwrap(), "GPT-IMAGE-1");
    let err = pick_image_model("openai", &[], None).unwrap_err();
    assert!(
        err.contains("provider `openai` has no image-output models"),
        "{err}"
    );
}

#[test]
fn output_format_mime_maps_all_variants() {
    assert_eq!(output_format_mime(OutputFormat::Png), "image/png");
    assert_eq!(output_format_mime(OutputFormat::Jpeg), "image/jpeg");
    assert_eq!(output_format_mime(OutputFormat::Webp), "image/webp");
}

/// Build a real 4x3 PNG, return its base64.
fn sample_png_b64() -> String {
    let img = image::DynamicImage::ImageRgba8(image::RgbaImage::from_fn(4, 3, |x, y| {
        image::Rgba([x as u8 * 60, y as u8 * 80, 0, 255])
    }));
    let mut png = Cursor::new(Vec::new());
    img.write_to(&mut png, ImageFormat::Png).unwrap();
    BASE64.encode(png.into_inner())
}

fn args(prompt: &str, model: Option<&str>) -> GenerateImageArgs {
    GenerateImageArgs {
        prompt: prompt.to_string(),
        model: model.map(|m| m.to_string()),
        size: None,
        quality: None,
        output_format: None,
        background: None,
        alt: None,
    }
}

/// Runs a call whose provider answers with the given image.
fn execute_with_answer(
    args: GenerateImageArgs,
    revised_prompt: Option<&str>,
    cancelled: bool,
) -> Result<DisplayImageReturn, ToolExecError> {
    let (mut run, mut step) = begin_image(args, Some(cancelled));
    loop {
        (run, step) = match (run, step) {
            (ImageRun::Asking(a), ImageStep::AskProvider) => provider_answered(
                a,
                ProviderReply::Found {
                    slug: "openai".to_string(),
                    candidates: candidates(&["gpt-image-1"]),
                    fallback: "gpt-image-1".to_string(),
                },
            ),
            (ImageRun::Generating(a, format), ImageStep::Generate(request)) => image_answered(
                a,
                format,
                Ok(ImageAnswer {
                    image_b64: sample_png_b64(),
                    model: request.model,
                    revised_prompt: revised_prompt.map(|p| p.to_string()),
                }),
                false,
            ),
            (ImageRun::Preparing(a, answer, data), ImageStep::Prepare(mime, bytes)) => {
                let (w, h) = decode_image_dimensions(&bytes);
                image_prepared(a, answer, data, Ok((mime, w, h)))
            }
            (ImageRun::Done, ImageStep::Finish(result)) => return result,
            _ => panic!("a step that does not fit"),
        };
    }
}

#[test]
fn execute_happy_path_produces_display_image_return() {
    let ret = execute_with_answer(
        args("a lighthouse", Some("gpt-image-1")),
        Some("a rewritten prompt"),
        false,
    )
    .unwrap();
    // Dimensions probed from the real PNG; extract_image hands the image to the client pipeline.
    assert_eq!((ret.image.width, ret.image.height), (4, 3));
    assert_eq!(ret.image.mime_type, "image/png");
    assert_eq!(GenerateImage::new().extract_image(&ret).width, ret.image.width);
    assert_eq!(ret.image.data, BASE64.decode(sample_png_b64()).unwrap());
    // revised_prompt lands in the text handle along with the model that produced the image.
    assert!(ret.text.contains("via gpt-image-1"), "text handle: {}", ret.text);
    assert!(
        ret.text.contains("revised prompt: a rewritten prompt"),
        "text handle: {}",
        ret.text
    );
}

#[test]
fn execute_aborts_on_cancelled_flag() {
    let err = execute_with_answer(args("p", None), None, true).unwrap_err();
    assert!(err.to_string().contains("cancelled"), "{}", err.to_string());
}

#[test]
fn execute_without_context_errors_clearly() {
    match begin_image(args("p", None), None) {
        (ImageRun::Done, ImageStep::Finish(Err(err))) => {
            assert!(err.to_string().contains("requires a session context"))
        }
        _ => panic!("a call without a session must fail"),
    }
}

#[test]
fn a_call_that_is_cancelled_late_gives_no_image() {
    let answer = ImageAnswer {
        image_b64: sample_png_b64(),
        model: "m".to_string(),
        revised_prompt: None,
    };
    match image_answered(args("p", None), OutputFormat::Png, Ok(answer), true) {
        (ImageRun::Done, ImageStep::Finish(Err(err))) => {
            assert_eq!(err.to_string(), "image generation cancelled")
        }
        _ => panic!("a cancelled call must fail"),
    }
}

#[test]
fn an_answer_that_is_not_base64_is_an_error() {
    let answer =
        ImageAnswer { image_b64: "!!".to_string(), model: "m".to_string(), revised_prompt: None };
    assert!(matches!(
        image_answered(args("p", None), OutputFormat::Png, Ok(answer), false),
        (ImageRun::Done, ImageStep::Finish(Err(_)))
    ));
}

#[test]
fn the_provider_is_asked_for_what_was_wanted() {
    let mut a = args("p", None);
    a.size = Some(ImageSize::Square1024);
    a.quality = Some(ImageQuality::High);
    a.output_format = Some(OutputFormat::Webp);
    a.background = Some(Background::Transparent);
    let r = build_image_request(&a, "x", &candidates(&["sdxl", "flux-1"]), "m");
    assert_eq!(r.model, "flux-1");
    assert_eq!(r.size.as_str(), "1024x1024");
    assert_eq!(r.quality.as_str(), "high");
    assert_eq!(r.output_format.as_str(), "webp");
    assert_eq!(r.background.as_str(), "transparent");
    // Without a catalog the provider's own model is used.
    assert_eq!(build_image_request(&args("p", None), "x", &[], "m").model, "m");
}

#[test]
fn tiers_do_not_depend_on_case() {
    for m in ["gpt-image-1", "IMAGEN-3", "Gemini-x-Image", "flux", "DALL-E-3", "sdxl"] {
        assert_eq!(model_tier(m), model_tier(&m.to_uppercase()));
    }
    assert_eq!(model_tier("dall-e-3"), 4);
    assert_eq!(model_tier("sdxl"), 5);
}

#[test]
fn a_call_is_described() {
    let mut a = args("a cat", Some("flux"));
    a.size = Some(ImageSize::Auto);
    let d = GenerateImage::new().describe_invocation(&a);
    assert!(d.starts_with("Generating image from prompt: a cat."), "{d}");
    assert!(d.contains(" Model: `flux`."), "{d}");
}
