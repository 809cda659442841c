use std::io::{Cursor, Read, Write};

use docx_template::docx::DocxTemplate;
use docx_template::error::DocxError;
use docx_template::image::cm_hundredths_to_emu;

const RELS_XML: &str = "<?xml version=\"1.0\" encoding=\"UTF-8\" standalone=\"yes\"?><Relationships xmlns=\"http://schemas.openxmlformats.org/package/2006/relationships\"><Relationship Id=\"rId1\" Type=\"styles\" Target=\"styles.xml\"/></Relationships>";

fn build_template(doc_xml: &str, extra: &[(&str, &[u8])]) -> Vec<u8> {
    let mut w = zip::ZipWriter::new(Cursor::new(Vec::new()));
    let opts = zip::write::SimpleFileOptions::default();
    w.start_file("word/document.xml", opts).unwrap();
    w.write_all(doc_xml.as_bytes()).unwrap();
    w.start_file("word/_rels/document.xml.rels", opts).unwrap();
    w.write_all(RELS_XML.as_bytes()).unwrap();
    for (name, data) in extra {
        w.start_file(*name, opts).unwrap();
        w.write_all(data).unwrap();
    }
    w.finish().unwrap().into_inner()
}

fn entry_bytes(archive: &[u8], name: &str) -> Vec<u8> {
    let mut a = zip::ZipArchive::new(Cursor::new(archive.to_vec())).unwrap();
    let mut f = a.by_name(name).unwrap();
    let mut v = Vec::new();
    f.read_to_end(&mut v).unwrap();
    v
}

fn entry_names(archive: &[u8]) -> Vec<String> {
    let a = zip::ZipArchive::new(Cursor::new(archive.to_vec())).unwrap();
    a.file_names().map(|s| s.to_string()).collect()
}

#[test]
fn explicit_size_extents_exact() {
    let mut tpl = DocxTemplate::new();
    // 5.00 cm by 3.00 cm
    let w_emu = cm_hundredths_to_emu(500);
    let h_emu = cm_hundredths_to_emu(300);
    assert_eq!(w_emu, 5 * 360000);
    assert_eq!(h_emu, 3 * 360000);
    tpl.add_image_data_size_replacement(
        "{{photo}}",
        "pic.png",
        b"raw image bytes".to_vec(),
        "png",
        w_emu,
        h_emu,
    );
    let template = build_template(
        "<w:document><w:body><w:p><w:r><w:t>{{photo}}</w:t></w:r></w:p></w:body></w:document>",
        &[],
    );
    let out = tpl.process_template(&template).unwrap();
    let doc = String::from_utf8(entry_bytes(&out, "word/document.xml")).unwrap();
    assert!(doc.contains("cx=\"1800000\" cy=\"1080000\""));
    assert!(doc.contains("<w:drawing>"));
    assert!(!doc.contains("{{photo}}"));
}

#[test]
fn same_source_two_placeholders_distinct_ids() {
    let mut tpl = DocxTemplate::new();
    let data = b"shared image bytes".to_vec();
    tpl.add_image_data_size_replacement("{{front}}", "shared.png", data.clone(), "png", 10, 20);
    tpl.add_image_data_size_replacement("{{back}}", "shared.png", b"ignored".to_vec(), "png", 10, 20);
    let template = build_template(
        "<w:document><w:body><w:p><w:r><w:t>{{front}}</w:t></w:r></w:p><w:p><w:r><w:t>{{back}}</w:t></w:r></w:p></w:body></w:document>",
        &[],
    );
    let out = tpl.process_template(&template).unwrap();
    let rels = String::from_utf8(entry_bytes(&out, "word/_rels/document.xml.rels")).unwrap();
    let image_rels = rels
        .matches("Type=\"http://schemas.openxmlformats.org/officeDocument/2006/relationships/image\"")
        .count();
    assert_eq!(image_rels, 2);
    let media: Vec<String> = entry_names(&out)
        .into_iter()
        .filter(|n| n.starts_with("word/media/"))
        .collect();
    assert_eq!(media.len(), 2);
    assert_ne!(media[0], media[1]);
    // byte-identical content, loaded once and shared
    assert_eq!(entry_bytes(&out, &media[0]), data);
    assert_eq!(entry_bytes(&out, &media[1]), data);
    // each media entry is targeted by a relationship
    for name in &media {
        let id = name
            .strip_prefix("word/media/image_")
            .and_then(|s| s.strip_suffix(".png"))
            .unwrap();
        assert!(rels.contains(&format!("Id=\"{}\"", id)));
        assert!(rels.contains(&format!("Target=\"media/image_{}.png\"", id)));
    }
}

#[test]
fn untouched_entries_byte_identical() {
    let mut tpl = DocxTemplate::new();
    tpl.add_text_replacement("{{x}}", "y");
    let styles = b"<styles>unchanged bytes \xe4\xb8\xad</styles>".to_vec();
    let ct = b"[Content_Types!]".to_vec();
    let template = build_template(
        "<w:document><w:body><w:p><w:r><w:t>{{x}}</w:t></w:r></w:p></w:body></w:document>",
        &[("word/styles.xml", &styles), ("docProps/app.xml", &ct)],
    );
    let out = tpl.process_template(&template).unwrap();
    assert_eq!(entry_bytes(&out, "word/styles.xml"), styles);
    assert_eq!(entry_bytes(&out, "docProps/app.xml"), ct);
}

#[test]
fn absent_image_placeholder_removed() {
    let mut tpl = DocxTemplate::new();
    tpl.add_image_absent_replacement("{{photo}}");
    let template = build_template(
        "<w:document><w:body><w:p><w:r><w:t>{{photo}}</w:t></w:r></w:p></w:body></w:document>",
        &[],
    );
    let out = tpl.process_template(&template).unwrap();
    let doc = String::from_utf8(entry_bytes(&out, "word/document.xml")).unwrap();
    assert!(!doc.contains("{{photo}}"));
    assert!(!doc.contains("<w:drawing>"));
    assert!(doc.contains("</w:p>"));
}

#[test]
fn original_relationships_kept() {
    let mut tpl = DocxTemplate::new();
    tpl.add_text_replacement("{{x}}", "y");
    let template = build_template(
        "<w:document><w:body><w:p><w:r><w:t>{{x}}</w:t></w:r></w:p></w:body></w:document>",
        &[],
    );
    let out = tpl.process_template(&template).unwrap();
    let rels = String::from_utf8(entry_bytes(&out, "word/_rels/document.xml.rels")).unwrap();
    assert!(rels.contains("<Relationship Id=\"rId1\" Type=\"styles\" Target=\"styles.xml\"/>"));
    assert!(rels.starts_with("<?xml version=\"1.0\" encoding=\"UTF-8\" standalone=\"yes\"?>"));
    assert!(rels.ends_with("</Relationships>"));
}

#[test]
fn garbage_archive_rejected() {
    let tpl = DocxTemplate::new();
    let r = tpl.process_template(&b"this is not a zip archive".to_vec());
    assert!(matches!(r, Err(DocxError::Zip(_))));
}
