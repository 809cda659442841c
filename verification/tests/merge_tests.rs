use std::io::{Cursor, Read, Write};

use docx_template::error::DocxError;
use docx_template::merge::{DocxConcat, extract_body_content, merge_docx};

fn build_source(body_inner: &str, rel_id: &str, media: &[(&str, &[u8])]) -> Vec<u8> {
    let mut w = zip::ZipWriter::new(Cursor::new(Vec::new()));
    let opts = zip::write::SimpleFileOptions::default();
    w.start_file("word/document.xml", opts).unwrap();
    let doc = format!("<w:document><w:body>{}</w:body></w:document>", body_inner);
    w.write_all(doc.as_bytes()).unwrap();
    w.start_file("word/_rels/document.xml.rels", opts).unwrap();
    let rels = format!(
        "<?xml version=\"1.0\"?><Relationships xmlns=\"x\"><Relationship Id=\"{}\" Type=\"t\" Target=\"g\"/></Relationships>",
        rel_id
    );
    w.write_all(rels.as_bytes()).unwrap();
    w.start_file("word/styles.xml", opts).unwrap();
    w.write_all(b"<styles/>").unwrap();
    for (name, data) in media {
        w.start_file(*name, opts).unwrap();
        w.write_all(data).unwrap();
    }
    w.finish().unwrap().into_inner()
}

fn merged_entry(archive: &[u8], name: &str) -> Vec<u8> {
    let mut a = zip::ZipArchive::new(Cursor::new(archive.to_vec())).unwrap();
    let mut f = a.by_name(name).unwrap();
    let mut v = Vec::new();
    f.read_to_end(&mut v).unwrap();
    v
}

#[test]
fn merge_two_with_page_break() {
    let a = build_source("<w:p><w:r><w:t>AAA</w:t></w:r></w:p>", "rIdA", &[]);
    let b = build_source("<w:p><w:r><w:t>BBB</w:t></w:r></w:p>", "rIdB", &[]);
    let out = merge_docx(&vec![a, b], DocxConcat::PAGE).unwrap();
    let doc = String::from_utf8(merged_entry(&out, "word/document.xml")).unwrap();
    let ia = doc.find("AAA").unwrap();
    let ibrk = doc.find("<w:br w:type=\"page\"/>").unwrap();
    let ib = doc.find("BBB").unwrap();
    assert!(ia < ibrk && ibrk < ib);
    let rels = String::from_utf8(merged_entry(&out, "word/_rels/document.xml.rels")).unwrap();
    assert!(rels.contains("Id=\"rIdA\""));
    assert!(rels.contains("Id=\"rIdB\""));
    // the first source provides the structure
    assert_eq!(merged_entry(&out, "word/styles.xml"), b"<styles/>".to_vec());
}

#[test]
fn merge_with_blank_lines() {
    let a = build_source("<w:p><w:r><w:t>AAA</w:t></w:r></w:p>", "rIdA", &[]);
    let b = build_source("<w:p><w:r><w:t>BBB</w:t></w:r></w:p>", "rIdB", &[]);
    let out = merge_docx(&vec![a, b], DocxConcat::CRLF(2)).unwrap();
    let doc = String::from_utf8(merged_entry(&out, "word/document.xml")).unwrap();
    assert_eq!(doc.matches("<w:t></w:t>").count(), 2);
    assert!(!doc.contains("<w:br w:type=\"page\"/>"));
}

#[test]
fn merge_missing_document_part() {
    let mut w = zip::ZipWriter::new(Cursor::new(Vec::new()));
    let opts = zip::write::SimpleFileOptions::default();
    w.start_file("word/styles.xml", opts).unwrap();
    w.write_all(b"<styles/>").unwrap();
    let headless = w.finish().unwrap().into_inner();
    let r = merge_docx(&vec![headless], DocxConcat::PAGE);
    assert!(matches!(r, Err(DocxError::MissingDocumentPart)));
}

#[test]
fn merge_carries_media() {
    let pic = b"picture bytes".to_vec();
    let a = build_source(
        "<w:p><w:r><w:t>AAA</w:t></w:r></w:p>",
        "rIdA",
        &[("word/media/image1.png", &pic)],
    );
    let b = build_source("<w:p><w:r><w:t>BBB</w:t></w:r></w:p>", "rIdB", &[]);
    let out = merge_docx(&vec![a, b], DocxConcat::PAGE).unwrap();
    assert_eq!(merged_entry(&out, "word/media/image1.png"), pic);
}

#[test]
fn merge_single_document() {
    let a = build_source("<w:p><w:r><w:t>solo</w:t></w:r></w:p>", "rIdA", &[]);
    let out = merge_docx(&vec![a], DocxConcat::PAGE).unwrap();
    let doc = String::from_utf8(merged_entry(&out, "word/document.xml")).unwrap();
    assert!(doc.contains("solo"));
    assert!(!doc.contains("<w:br w:type=\"page\"/>"));
    assert!(doc.starts_with("<?xml version=\"1.0\" encoding=\"UTF-8\"?>"));
    assert!(doc.ends_with("</w:body>\n        </w:document>"));
}

#[test]
fn body_content_extracted_without_wrapper() {
    let xml = b"<w:document><w:body><w:p><w:r><w:t>inner</w:t></w:r></w:p></w:body></w:document>"
        .to_vec();
    let inner = String::from_utf8(extract_body_content(&xml).unwrap()).unwrap();
    assert_eq!(inner, "<w:p><w:r><w:t>inner</w:t></w:r></w:p>");
}

#[test]
fn body_content_empty_without_body() {
    let xml = b"<other>nothing here</other>".to_vec();
    let inner = extract_body_content(&xml).unwrap();
    assert!(inner.is_empty());
}
