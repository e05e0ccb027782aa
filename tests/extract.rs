use rsvp::extract::{
    archive_entry, document_kind, docx_text, extract_text, html_text, markdown_text, odt_text, DocumentKind,
    ExtractError,
};
use std::io::Write;

fn archive(entries: &[(&str, &str)]) -> Vec<u8> {
    let mut w = zip::ZipWriter::new(std::io::Cursor::new(Vec::new()));
    let options = zip::write::SimpleFileOptions::default().compression_method(zip::CompressionMethod::Stored);
    for (name, body) in entries {
        w.start_file(*name, options).unwrap();
        w.write_all(body.as_bytes()).unwrap();
    }
    w.finish().unwrap().into_inner()
}

#[test]
fn kind_follows_the_file_ending() {
    assert_eq!(document_kind("/x/a.pdf"), DocumentKind::Pdf);
    assert_eq!(document_kind("a.epub"), DocumentKind::Epub);
    assert_eq!(document_kind("a.docx"), DocumentKind::Docx);
    assert_eq!(document_kind("a.html"), DocumentKind::Html);
    assert_eq!(document_kind("a.htm"), DocumentKind::Html);
    assert_eq!(document_kind("notes.md"), DocumentKind::Markdown);
    assert_eq!(document_kind("a.odt"), DocumentKind::Odt);
    assert_eq!(document_kind("a.txt"), DocumentKind::PlainText);
    assert_eq!(document_kind("README"), DocumentKind::PlainText);
}

#[test]
fn html_text_joins_the_body_text() {
    let t = html_text("<html><head><title>T</title></head><body><p>Hello</p><p>world</p></body></html>");
    assert_eq!(t, "Hello world");
}

#[test]
fn markdown_text_keeps_text_events() {
    let t = markdown_text("# Title\n\nSome *text*");
    assert_eq!(t, "Title Some  text");
}

#[test]
fn odt_text_spaces_character_runs() {
    assert_eq!(odt_text("<a><b>one</b><c>two</c></a>"), "one two ");
}

#[test]
fn docx_text_strips_run_tags() {
    assert_eq!(docx_text("<w:p><w:t>Hi</w:t><w:t>there</w:t></w:p>"), "\nHi there \n");
}

#[test]
fn archive_entry_finds_the_named_part() {
    let bytes = archive(&[("a.xml", "first"), ("content.xml", "<x>body</x>")]);
    assert_eq!(archive_entry(&bytes, "content.xml"), Ok(Some("<x>body</x>".to_string())));
    assert_eq!(archive_entry(&bytes, "missing.xml"), Ok(None));
    assert_eq!(archive_entry(b"not a zip", "content.xml"), Err(ExtractError::Archive));
}

#[test]
fn docx_document_text() {
    let bytes = archive(&[("word/document.xml", "<w:p><w:t>Read</w:t><w:t>me</w:t></w:p>")]);
    assert_eq!(extract_text(DocumentKind::Docx, &bytes), Ok("\nRead me \n".to_string()));
}

#[test]
fn odt_document_text() {
    let bytes = archive(&[("mimetype", "x"), ("content.xml", "<doc><p>Read</p><p>me</p></doc>")]);
    assert_eq!(extract_text(DocumentKind::Odt, &bytes), Ok("Read me ".to_string()));
}

#[test]
fn archive_without_the_part_gives_empty_text() {
    let bytes = archive(&[("other.xml", "x")]);
    assert_eq!(extract_text(DocumentKind::Docx, &bytes), Ok(String::new()));
}

#[test]
fn broken_archive_is_an_error() {
    assert_eq!(extract_text(DocumentKind::Odt, b"garbage"), Err(ExtractError::Archive));
}

#[test]
fn plain_text_is_the_file_itself() {
    assert_eq!(extract_text(DocumentKind::PlainText, "caf\u{e9}".as_bytes()), Ok("caf\u{e9}".to_string()));
    assert_eq!(extract_text(DocumentKind::Markdown, b"*a*"), Ok("a".to_string()));
    assert_eq!(extract_text(DocumentKind::Html, b"<body>x</body>"), Ok("x".to_string()));
}

#[test]
fn invalid_utf8_is_an_encoding_error() {
    assert_eq!(extract_text(DocumentKind::PlainText, &[0xff, 0xfe]), Err(ExtractError::Encoding));
}

#[test]
fn file_formats_need_the_file() {
    assert_eq!(extract_text(DocumentKind::Pdf, b"%PDF"), Err(ExtractError::NeedsFile));
    assert_eq!(extract_text(DocumentKind::Epub, b"x"), Err(ExtractError::NeedsFile));
}
