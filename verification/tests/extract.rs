//! The format-specific extractors: legacy byte filtering, OOXML archives,
//! and the failure paths of the binary-format parsers.

use std::io::Write;

use sift::file_handler::{
    scan_file, scan_legacy_office, scan_msg, scan_ooxml, scan_pdf, scan_rtf, scan_txt,
};
use sift::matcher::load_regex;

fn docx_bytes(xml: &str) -> Vec<u8> {
    let cursor = std::io::Cursor::new(Vec::new());
    let mut writer = zip::ZipWriter::new(cursor);
    let options: zip::write::SimpleFileOptions = Default::default();
    writer.start_file("word/document.xml", options).unwrap();
    writer.write_all(xml.as_bytes()).unwrap();
    writer.finish().unwrap().into_inner()
}

#[test]
fn docx_xml_runs_are_searched() {
    let patterns = load_regex(&vec!["SECRET-\\d+".to_string()], false).unwrap();
    let xml = "<?xml version=\"1.0\"?><w:document xmlns:w=\"w\"><w:body><w:p><w:r><w:t>code SECRET-42 here</w:t></w:r></w:p></w:body></w:document>";
    let content = docx_bytes(xml);
    let (findings, path) = scan_ooxml("/docs/doc.docx", &content, &patterns).unwrap();
    assert_eq!(findings, vec!["SECRET-42".to_string()]);
    assert_eq!(path, "/docs/doc.docx");
    let row = scan_file("/docs/doc.docx", &content, &patterns).unwrap();
    assert_eq!(row.findings, "SECRET-42");
    assert_eq!(row.filename, "doc.docx");
    assert_eq!(row.path, "/docs/doc.docx");
}

#[test]
fn docx_markup_is_not_matched_as_text() {
    // The pattern matches the XML element names, which occur in the raw
    // bytes but not in the character data the extractor keeps.
    let patterns = load_regex(&vec!["w:document".to_string()], false).unwrap();
    let xml = "<?xml version=\"1.0\"?><w:document xmlns:w=\"w\"><w:body><w:p><w:r><w:t>plain</w:t></w:r></w:p></w:body></w:document>";
    let content = docx_bytes(xml);
    assert!(scan_ooxml("/docs/doc.docx", &content, &patterns).is_none());
}

#[test]
fn non_xml_archive_member_contributes_nothing() {
    let patterns = load_regex(&vec!["SECRET".to_string()], false).unwrap();
    let cursor = std::io::Cursor::new(Vec::new());
    let mut writer = zip::ZipWriter::new(cursor);
    let options: zip::write::SimpleFileOptions = Default::default();
    writer.start_file("notes.txt", options).unwrap();
    writer.write_all(b"SECRET but not xml").unwrap();
    let content = writer.finish().unwrap().into_inner();
    assert!(scan_ooxml("/docs/doc.docx", &content, &patterns).is_none());
}

#[test]
fn broken_archive_is_dropped() {
    let patterns = load_regex(&vec!["SECRET".to_string()], false).unwrap();
    assert!(scan_ooxml("/docs/doc.docx", &b"SECRET not a zip".to_vec(), &patterns).is_none());
}

#[test]
fn legacy_filter_keeps_alphanumerics_and_spaces() {
    let patterns = load_regex(&vec!["top secret".to_string()], false).unwrap();
    let mut content: Vec<u8> = Vec::new();
    content.extend_from_slice(&[0x00, 0x01, 0xfe]);
    content.extend_from_slice(b"top");
    content.extend_from_slice(&[0x09]);
    content.extend_from_slice(b"secret");
    content.extend_from_slice(&[0x02]);
    let (findings, _) = scan_legacy_office("/d/old.doc", &content, &patterns).unwrap();
    assert_eq!(findings, vec!["top secret".to_string()]);
}

#[test]
fn text_files_must_be_utf8() {
    let patterns = load_regex(&vec![".".to_string()], false).unwrap();
    let invalid = vec![0xff, 0xfe, 0x41];
    assert!(scan_txt("/d/a.txt", &invalid, &patterns).is_none());
    assert!(scan_rtf("/d/a.rtf", &invalid, &patterns).is_none());
    let valid = b"A".to_vec();
    assert!(scan_txt("/d/a.txt", &valid, &patterns).is_some());
    assert!(scan_rtf("/d/a.rtf", &valid, &patterns).is_some());
}

#[test]
fn unparsable_pdf_and_msg_are_dropped() {
    let patterns = load_regex(&vec!["SECRET".to_string()], false).unwrap();
    assert!(scan_pdf("/d/a.pdf", &b"SECRET not a pdf".to_vec(), &patterns).is_none());
    assert!(scan_msg("/d/a.msg", &b"SECRET not a msg".to_vec(), &patterns).is_none());
}

#[test]
fn empty_pdf_document_has_no_findings() {
    let patterns = load_regex(&vec![".".to_string()], false).unwrap();
    let mut doc = lopdf::Document::with_version("1.5");
    let pages_id = doc.new_object_id();
    let mut pages = lopdf::Dictionary::new();
    pages.set("Type", lopdf::Object::Name(b"Pages".to_vec()));
    pages.set("Kids", lopdf::Object::Array(vec![]));
    pages.set("Count", lopdf::Object::Integer(0));
    doc.objects.insert(pages_id, lopdf::Object::Dictionary(pages));
    let mut catalog = lopdf::Dictionary::new();
    catalog.set("Type", lopdf::Object::Name(b"Catalog".to_vec()));
    catalog.set("Pages", lopdf::Object::Reference(pages_id));
    let catalog_id = doc.add_object(lopdf::Object::Dictionary(catalog));
    doc.trailer.set("Root", lopdf::Object::Reference(catalog_id));
    let mut bytes: Vec<u8> = Vec::new();
    doc.save_to(&mut bytes).unwrap();
    assert!(scan_pdf("/d/empty.pdf", &bytes, &patterns).is_none());
}
