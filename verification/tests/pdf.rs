use choreo_tools::error::ToolExecError;
use choreo_tools::pdf::{
    DELIMITER_REDACTION, MAX_PDF_BYTES, MAX_PDF_DECOMPRESSED_BYTES, PdfAccessed, PdfClassifyArgs,
    PdfFacts, PdfFault, PdfKind, PdfToMarkdownArgs, UNTRUSTED_CONTENT_FOOTER,
    UNTRUSTED_CONTENT_HEADER, check_page_range, describe_pdf_classify_invocation,
    describe_pdf_to_markdown_invocation, enforce_decompress_budget, execute_pdf_classify,
    execute_pdf_to_markdown, finish_classify, finish_markdown, looks_like_pdf, map_pdf_error,
    pdf_text_window, pdf_type_label, read_validated_pdf, redact_delimiters, render_page_list,
    sanitize_pdf_text,
};
use choreo_tools::sanitize::MAX_TOOL_OUTPUT_BYTES;

/// A PDF of the given objects.
fn assemble(objs: &[Vec<u8>]) -> Vec<u8> {
    let mut out = Vec::new();
    out.extend_from_slice(b"%PDF-1.4\n");
    let mut offsets = Vec::with_capacity(objs.len());
    for obj in objs {
        offsets.push(out.len());
        out.extend_from_slice(obj);
    }
    let xref_pos = out.len();
    let mut xref = format!("xref\n0 {}\n", objs.len() + 1);
    xref.push_str("0000000000 65535 f \n");
    for off in &offsets {
        xref.push_str(&format!("{off:010} 00000 n \n"));
    }
    out.extend_from_slice(xref.as_bytes());
    out.extend_from_slice(
        format!(
            "trailer\n<< /Size {} /Root 1 0 R >>\nstartxref\n{xref_pos}\n%%EOF\n",
            objs.len() + 1
        )
        .as_bytes(),
    );
    out
}

/// A PDF with one page for each content stream.
fn build_pdf(contents: &[&str]) -> Vec<u8> {
    let pages = contents.len();
    let font_id = 3 + pages as u32;
    let kids: Vec<String> = (0..pages).map(|i| format!("{} 0 R", 3 + i)).collect();
    let mut objs: Vec<Vec<u8>> = Vec::new();
    objs.push(b"1 0 obj\n<< /Type /Catalog /Pages 2 0 R >>\nendobj\n".to_vec());
    objs.push(
        format!(
            "2 0 obj\n<< /Type /Pages /Kids [{}] /Count {pages} >>\nendobj\n",
            kids.join(" ")
        )
        .into_bytes(),
    );
    for i in 0..pages {
        let page_id = 3 + i as u32;
        let content_id = font_id + 1 + i as u32;
        objs.push(
            format!(
                "{page_id} 0 obj\n<< /Type /Page /Parent 2 0 R /MediaBox [0 0 612 792] \
                 /Resources << /Font << /F1 {font_id} 0 R >> >> /Contents {content_id} 0 R >>\nendobj\n"
            )
            .into_bytes(),
        );
    }
    objs.push(
        format!(
            "{font_id} 0 obj\n<< /Type /Font /Subtype /Type1 /BaseFont /Helvetica >>\nendobj\n"
        )
        .into_bytes(),
    );
    for (i, content) in contents.iter().enumerate() {
        let content_id = font_id + 1 + i as u32;
        objs.push(
            format!(
                "{content_id} 0 obj\n<< /Length {} >>\nstream\n{content}\nendstream\nendobj\n",
                content.len()
            )
            .into_bytes(),
        );
    }
    assemble(&objs)
}

fn minimal_text_pdf() -> Vec<u8> {
    build_pdf(&["BT /F1 24 Tf 72 720 Td (Hello World) Tj ET"])
}

/// A single-page PDF whose content stream is a full-page image with no text operators.
fn image_only_pdf() -> Vec<u8> {
    let content = "q 72 72 468 648 re W n /Im0 Do Q";
    let objs: Vec<Vec<u8>> = vec![
        b"1 0 obj\n<< /Type /Catalog /Pages 2 0 R >>\nendobj\n".to_vec(),
        b"2 0 obj\n<< /Type /Pages /Kids [3 0 R] /Count 1 >>\nendobj\n".to_vec(),
        b"3 0 obj\n<< /Type /Page /Parent 2 0 R /MediaBox [0 0 612 792] \
          /Resources << /XObject << /Im0 5 0 R >> >> /Contents 4 0 R >>\nendobj\n"
            .to_vec(),
        format!(
            "4 0 obj\n<< /Length {} >>\nstream\n{content}\nendstream\nendobj\n",
            content.len()
        )
        .into_bytes(),
        b"5 0 obj\n<< /Type /XObject /Subtype /Image /Width 1 /Height 1 \
          /ColorSpace /DeviceGray /BitsPerComponent 8 /Length 1 >>\nstream\n\x00\nendstream\nendobj\n"
            .to_vec(),
    ];
    assemble(&objs)
}

const PATH: &str = "/tmp/doc.pdf";

/// A file of these bytes as it is accessed.
fn opened(bytes: Vec<u8>) -> PdfAccessed {
    PdfAccessed::Opened { is_file: true, len: bytes.len() as u64, read: Ok(bytes) }
}

fn validated(bytes: Vec<u8>) -> Result<Vec<u8>, ToolExecError> {
    read_validated_pdf(PATH, opened(bytes))
}

fn classify(bytes: Vec<u8>) -> String {
    execute_pdf_classify(&PdfClassifyArgs { path: PATH.to_string() }, validated(bytes)).unwrap()
}

fn markdown(
    bytes: Vec<u8>,
    pages: Option<Vec<u32>>,
    compact: Option<bool>,
) -> Result<String, ToolExecError> {
    execute_pdf_to_markdown(
        &PdfToMarkdownArgs { path: PATH.to_string(), pages, compact },
        validated(bytes),
    )
}

fn check_accepts_valid_pdf() {
    let bytes = validated(minimal_text_pdf()).unwrap();
    assert!(bytes.starts_with(b"%PDF-"));
}

fn check_rejects_non_pdf_magic() {
    let err = validated(b"not a pdf at all".to_vec()).unwrap_err().to_string();
    assert!(err.contains("not a PDF"), "{err}");
}

fn check_rejects_missing_file() {
    let path = "/nonexistent/does-not-exist.pdf";
    let err =
        read_validated_pdf(path, PdfAccessed::OpenFailed("No such file or directory".to_string()))
            .unwrap_err()
            .to_string();
    assert!(err.contains(path), "{err}");
}

fn check_rejects_oversize_file() {
    let accessed = PdfAccessed::Opened {
        is_file: true,
        len: MAX_PDF_BYTES + 1,
        read: Ok(b"%PDF-".to_vec()),
    };
    let err = read_validated_pdf(PATH, accessed).unwrap_err().to_string();
    assert!(err.contains("size cap"), "{err}");
}

fn check_classify_text_pdf() {
    let out = classify(minimal_text_pdf());
    assert!(out.contains("pdf_type: text_based"), "{out}");
    assert!(out.contains("confidence:"), "{out}");
    assert!(out.contains("pages: 1"), "{out}");
    assert!(out.contains("pages_needing_ocr: []"), "{out}");
}

fn check_classify_image_only_pdf() {
    let out = classify(image_only_pdf());
    assert!(out.contains("pdf_type:"), "{out}");
    assert!(!out.contains("pdf_type: text_based"), "{out}");
}

fn check_classify_rejects_empty_path() {
    let err = execute_pdf_classify(&PdfClassifyArgs { path: "".into() }, Ok(minimal_text_pdf()))
        .unwrap_err()
        .to_string();
    assert!(err.contains("path"), "{err}");
}

fn check_markdown_is_framed() {
    let out = markdown(minimal_text_pdf(), None, None).unwrap();
    assert!(out.contains("Hello World"), "{out}");
    assert!(out.contains(UNTRUSTED_CONTENT_HEADER), "{out}");
    assert!(out.contains(UNTRUSTED_CONTENT_FOOTER), "{out}");
    assert!(out.contains("--- end untrusted content ---"), "{out}");
}

fn check_scanned_is_routed_to_ocr() {
    let out = markdown(image_only_pdf(), None, None).unwrap();
    assert!(
        out.contains("Route to OCR/vision") && out.contains("no extractable text"),
        "{out}"
    );
}

fn check_pages_filter() {
    let bytes = build_pdf(&[
        "BT /F1 24 Tf 72 720 Td (FIRST PAGE ONLY) Tj ET",
        "BT /F1 24 Tf 72 720 Td (SECOND PAGE ONLY) Tj ET",
    ]);
    let out = markdown(bytes, Some(vec![2]), None).unwrap();
    assert!(out.contains("SECOND PAGE ONLY"), "{out}");
    assert!(!out.contains("FIRST PAGE ONLY"), "{out}");
}

fn check_zero_page() {
    let err = markdown(minimal_text_pdf(), Some(vec![0]), None).unwrap_err().to_string();
    assert!(err.contains("1-indexed"), "{err}");
}

fn check_compact() {
    // A single text item with a long run of dots: the compact profile collapses it to " ... ";
    // the fidelity profile keeps it.
    let dots = ".".repeat(20);
    let content = format!("BT /F1 24 Tf 72 720 Td (Chapter 1 {dots} 5) Tj ET");
    let bytes = build_pdf(&[&content]);
    let compact_out = markdown(bytes.clone(), None, Some(true)).unwrap();
    assert!(compact_out.contains(" ... "), "{compact_out}");
    assert!(!compact_out.contains(&dots), "{compact_out}");
    let fidelity_out = markdown(bytes, None, Some(false)).unwrap();
    assert!(fidelity_out.contains(&dots), "{fidelity_out}");
}

fn check_sanitize() {
    let input = "line1\nline2\x1b]0;evil\x07tab\tend";
    let out = sanitize_pdf_text(input);
    assert!(out.contains("line1\nline2"), "{out}");
    assert!(out.contains('\t'), "{out}");
    assert!(!out.contains('\u{1b}'), "{out}");
    assert!(!out.contains('\u{7}'), "{out}");
    assert!(out.contains("\\u{1b}") || out.contains("\\x1b"), "{out}");
}

fn check_error_mapping() {
    let cases = [
        (PdfFault::Io("boom".to_string()), "failed to read PDF"),
        (PdfFault::Parse("syntax".to_string()), "failed to parse PDF"),
        (PdfFault::Encrypted, "encrypted"),
        (PdfFault::InvalidStructure, "invalid structure"),
        (PdfFault::NotAPdf("nope".to_string()), "not a valid PDF"),
    ];
    for (err, needle) in cases {
        let msg = map_pdf_error(err).to_string();
        assert!(msg.contains(needle), "{msg} does not contain {needle}");
    }
}

#[test]
fn pdf_accepts_valid_pdf() {
    check_accepts_valid_pdf();
}

#[test]
fn mod_accepts_valid_pdf() {
    check_accepts_valid_pdf();
}

#[test]
fn pdf_rejects_non_pdf_magic() {
    check_rejects_non_pdf_magic();
}

#[test]
fn mod_rejects_non_pdf_magic() {
    check_rejects_non_pdf_magic();
}

#[test]
fn pdf_rejects_missing_file() {
    check_rejects_missing_file();
}

#[test]
fn mod_rejects_missing_file() {
    check_rejects_missing_file();
}

#[test]
fn pdf_rejects_oversize_file() {
    check_rejects_oversize_file();
}

#[test]
fn mod_rejects_oversize_file() {
    check_rejects_oversize_file();
}

#[test]
fn pdf_classify_text_pdf() {
    check_classify_text_pdf();
}

#[test]
fn classify_classify_text_pdf() {
    check_classify_text_pdf();
}

#[test]
fn pdf_classify_image_only_pdf_is_not_text_based() {
    check_classify_image_only_pdf();
}

#[test]
fn classify_classify_image_only_pdf_is_not_text_based() {
    check_classify_image_only_pdf();
}

#[test]
fn pdf_classify_rejects_empty_path() {
    check_classify_rejects_empty_path();
}

#[test]
fn classify_classify_rejects_empty_path() {
    check_classify_rejects_empty_path();
}

#[test]
fn pdf_to_markdown_extracts_text_with_untrusted_delimiter() {
    check_markdown_is_framed();
}

#[test]
fn markdown_to_markdown_extracts_text_with_untrusted_delimiter() {
    check_markdown_is_framed();
}

#[test]
fn pdf_to_markdown_routes_scanned_to_ocr() {
    check_scanned_is_routed_to_ocr();
}

#[test]
fn markdown_to_markdown_routes_scanned_to_ocr() {
    check_scanned_is_routed_to_ocr();
}

#[test]
fn pdf_to_markdown_pages_filter_selects_only_requested_page() {
    check_pages_filter();
}

#[test]
fn markdown_to_markdown_pages_filter_selects_only_requested_page() {
    check_pages_filter();
}

#[test]
fn pdf_to_markdown_rejects_zero_page() {
    check_zero_page();
}

#[test]
fn markdown_to_markdown_rejects_zero_page() {
    check_zero_page();
}

#[test]
fn pdf_to_markdown_compact_collapses_dot_leaders() {
    check_compact();
}

#[test]
fn markdown_to_markdown_compact_collapses_dot_leaders() {
    check_compact();
}

#[test]
fn pdf_sanitize_escapes_control_chars_but_keeps_newlines() {
    check_sanitize();
}

#[test]
fn mod_sanitize_escapes_control_chars_but_keeps_newlines() {
    check_sanitize();
}

#[test]
fn pdf_pdf_error_mapping_is_actionable_per_variant() {
    check_error_mapping();
}

#[test]
fn mod_pdf_error_mapping_is_actionable_per_variant() {
    check_error_mapping();
}

#[test]
fn accepts_bom_and_leading_whitespace() {
    // The parser tolerates a UTF-8 BOM + leading whitespace before `%PDF-`, and no such file may
    // be refused.
    let mut bytes = Vec::new();
    bytes.extend_from_slice(&[0xEF, 0xBB, 0xBF]);
    bytes.extend_from_slice(b"\n ");
    bytes.extend_from_slice(&minimal_text_pdf());
    let out = validated(bytes).unwrap();
    assert!(looks_like_pdf(&out), "BOM-prefixed PDF should be accepted");
}

#[test]
fn to_markdown_truncates_at_output_budget() {
    let big = "A".repeat(150 * 1024);
    let content = format!("BT /F1 24 Tf 72 720 Td ({big}) Tj ET");
    let out = markdown(build_pdf(&[&content]), None, None).unwrap();
    assert!(out.contains("...[truncated]"), "len={}", out.len());
    assert!(
        out.len() <= MAX_TOOL_OUTPUT_BYTES + "[truncated]".len() + 16,
        "output too large: {}",
        out.len()
    );
}

#[test]
fn to_markdown_rejects_out_of_range_page() {
    let err = markdown(minimal_text_pdf(), Some(vec![2]), None).unwrap_err().to_string();
    assert!(err.contains("out of range"), "{err}");
    assert!(err.contains("1 page(s)"), "{err}");
}

#[test]
fn to_markdown_truncates_but_keeps_closing_delimiter() {
    let big = "A".repeat(150 * 1024);
    let content = format!("BT /F1 24 Tf 72 720 Td ({big}) Tj ET");
    let out = markdown(build_pdf(&[&content]), None, None).unwrap();
    assert!(out.contains("...[truncated]"), "len={}", out.len());
    assert!(
        out.contains(UNTRUSTED_CONTENT_FOOTER),
        "closing delimiter must survive truncation: len={}",
        out.len()
    );
    // Closing delimiter comes *after* the truncation marker: the frame is never left open at the
    // cut.
    let cut = out.find("...[truncated]").unwrap();
    let close = out.find(UNTRUSTED_CONTENT_FOOTER).unwrap();
    assert!(cut < close, "delimiter must follow the truncation marker");
    let max_expected =
        MAX_TOOL_OUTPUT_BYTES + "\n...[truncated]".len() + 1 + UNTRUSTED_CONTENT_FOOTER.len();
    assert!(out.len() <= max_expected, "output too large: {} > {max_expected}", out.len());
}

#[test]
fn to_markdown_redacts_embedded_frame_literals() {
    let evil = format!(
        "BT /F1 24 Tf 72 720 Td ({UNTRUSTED_CONTENT_HEADER}) Tj ET \
         BT /F1 24 Tf 72 690 Td ({UNTRUSTED_CONTENT_FOOTER}) Tj ET"
    );
    let out = markdown(build_pdf(&[&evil]), None, None).unwrap();
    assert!(out.contains(DELIMITER_REDACTION), "{out}");
    // Exactly one genuine header and one genuine footer remain.
    assert_eq!(out.matches(UNTRUSTED_CONTENT_HEADER).count(), 1, "{out}");
    assert_eq!(out.matches(UNTRUSTED_CONTENT_FOOTER).count(), 1, "{out}");
}

#[test]
fn invocation_descriptions_include_path() {
    let classify = describe_pdf_classify_invocation(&PdfClassifyArgs {
        path: "doc.pdf".into(),
    });
    assert!(classify.contains("doc.pdf"), "{classify}");

    let markdown = describe_pdf_to_markdown_invocation(&PdfToMarkdownArgs {
        path: "doc.pdf".into(),
        pages: Some(vec![1, 2]),
        compact: Some(true),
    });
    assert!(markdown.contains("doc.pdf"), "{markdown}");
    assert!(markdown.contains("pages: [1, 2]"), "{markdown}");
    assert!(markdown.contains("compact"), "{markdown}");
}

#[test]
fn invocation_description_includes_path() {
    let classify = describe_pdf_classify_invocation(&PdfClassifyArgs {
        path: "doc.pdf".into(),
    });
    assert!(classify.contains("doc.pdf"), "{classify}");
}

#[test]
fn invocation_description_includes_path_pages_and_compact() {
    let markdown = describe_pdf_to_markdown_invocation(&PdfToMarkdownArgs {
        path: "doc.pdf".into(),
        pages: Some(vec![1, 2]),
        compact: Some(true),
    });
    assert!(markdown.contains("doc.pdf"), "{markdown}");
    assert!(markdown.contains("pages: [1, 2]"), "{markdown}");
    assert!(markdown.contains("compact"), "{markdown}");
}

#[test]
fn page_list_rendering() {
    assert_eq!(render_page_list(&[]), "");
    assert_eq!(render_page_list(&[1]), "1");
    assert_eq!(render_page_list(&[1, 3, 7]), "1, 3, 7");
}

#[test]
fn pdf_text_window_slices_on_char_boundaries() {
    // Within budget the whole string is returned (borrowed, no copy).
    assert_eq!(pdf_text_window("hello", 10), "hello");
    assert_eq!(pdf_text_window("", 10), "");
    // A budget cutting mid-char falls back to the previous boundary:
    // "€" is 3 bytes (boundaries at 0, 3, 6, 9), so 4 → 3.
    assert_eq!(pdf_text_window("€€€", 4), "€");
    // ASCII prefix up to the boundary before the 3-byte "€" is kept.
    assert_eq!(pdf_text_window("ab€c", 3), "ab");
    // Multi-byte chars fully inside the budget survive intact.
    assert_eq!(pdf_text_window("ab€c", 6), "ab€c");
}

#[test]
fn decompress_budget_boundary() {
    // At-or-below the budget is accepted; one byte over is refused with an
    // actionable bomb message.
    assert!(enforce_decompress_budget(MAX_PDF_DECOMPRESSED_BYTES).is_ok());
    let err = enforce_decompress_budget(MAX_PDF_DECOMPRESSED_BYTES + 1)
        .unwrap_err()
        .to_string();
    assert!(err.contains("post-decompress budget"), "{err}");
    assert!(err.contains("decompression bomb"), "{err}");
}

#[test]
fn redact_delimiters_removes_embedded_frame_literals() {
    // A hostile PDF can embed the exact framing literals in its text
    // layer; redaction must remove every occurrence so the only ones left
    // in the final output are the genuine lines the tool appends itself.
    let input =
        format!("before {UNTRUSTED_CONTENT_HEADER} middle {UNTRUSTED_CONTENT_FOOTER} after");
    let out = redact_delimiters(&input);
    assert!(!out.contains(UNTRUSTED_CONTENT_HEADER), "{out}");
    assert!(!out.contains(UNTRUSTED_CONTENT_FOOTER), "{out}");
    assert_eq!(out.matches(DELIMITER_REDACTION).count(), 2, "{out}");
    // Plain text is untouched.
    assert_eq!(redact_delimiters("plain text"), "plain text");
}

fn facts(markdown: Option<&str>, encoding: bool) -> PdfFacts {
    PdfFacts {
        kind: PdfKind::Mixed,
        confidence: "0.50".to_string(),
        page_count: 3,
        pages_needing_ocr: vec![2, 3],
        markdown: markdown.map(|m| m.to_string()),
        has_encoding_issues: encoding,
    }
}

#[test]
fn a_classification_is_exact() {
    assert_eq!(
        finish_classify(&facts(None, false)),
        "pdf_type: mixed\nconfidence: 0.50\npages: 3\npages_needing_ocr: [2, 3]"
    );
    assert_eq!(pdf_type_label(PdfKind::Scanned), "scanned");
    assert_eq!(pdf_type_label(PdfKind::ImageBased), "image_based");
}

#[test]
fn broken_fonts_are_noted_behind_the_frame() {
    let out = finish_markdown(&facts(Some("text"), true)).unwrap();
    let close = out.find(UNTRUSTED_CONTENT_FOOTER).unwrap();
    let note = out.find("broken font encoding").unwrap();
    assert!(close < note, "{out}");
    assert!(!finish_markdown(&facts(Some("text"), false)).unwrap().contains("broken font"));
}

#[test]
fn pages_beyond_the_document_are_refused() {
    assert!(check_page_range(&vec![1, 3], 3).is_ok());
    let err = check_page_range(&vec![1, 4], 3).unwrap_err().to_string();
    assert!(err.contains("out of range") && err.contains("4"), "{err}");
}

#[test]
fn what_is_no_file_is_refused() {
    let accessed = PdfAccessed::Opened { is_file: false, len: 0, read: Ok(vec![]) };
    let err = read_validated_pdf(PATH, accessed).unwrap_err().to_string();
    assert_eq!(err, "'/tmp/doc.pdf' is not a regular file");
    let err = read_validated_pdf(PATH, PdfAccessed::StatFailed("x".to_string())).unwrap_err();
    assert_eq!(err.to_string(), "failed to stat '/tmp/doc.pdf': x");
    let accessed = PdfAccessed::Opened { is_file: true, len: 5, read: Err("y".to_string()) };
    let err = read_validated_pdf(PATH, accessed).unwrap_err();
    assert_eq!(err.to_string(), "failed to read '/tmp/doc.pdf': y");
}
