use docx_template::docx::DocxTemplate;
use docx_template::drawing::create_drawing_element;
use docx_template::error::DocxError;
use docx_template::xml::serialize_xml_events;

#[test]
fn text_placeholder_replaced() {
    let mut tpl = DocxTemplate::new();
    tpl.add_text_replacement("{{groupLeader}}", "Acme 公司");
    let doc = b"<w:document><w:body><w:p><w:r><w:t>{{groupLeader}}</w:t></w:r></w:p></w:body></w:document>".to_vec();
    let out = tpl.process_document_xml(&doc).unwrap();
    let s = String::from_utf8(out).unwrap();
    assert!(s.contains("Acme 公司"));
    assert!(!s.contains("{{groupLeader}}"));
    assert_eq!(
        s,
        "<w:document><w:body><w:p><w:r><w:t>Acme 公司</w:t></w:r></w:p></w:body></w:document>"
    );
}

#[test]
fn split_run_placeholder_resolves_identically() {
    let mut tpl = DocxTemplate::new();
    tpl.add_text_replacement("{{photo}}", "a picture");
    let split = b"<w:p><w:r><w:t>{{ph</w:t></w:r><w:r><w:t>oto}}</w:t></w:r></w:p>".to_vec();
    let single = b"<w:p><w:r><w:t>{{photo}}</w:t></w:r></w:p>".to_vec();
    let out_split = String::from_utf8(tpl.process_document_xml(&split).unwrap()).unwrap();
    let out_single = String::from_utf8(tpl.process_document_xml(&single).unwrap()).unwrap();
    assert!(out_split.contains("a picture"));
    assert!(out_single.contains("a picture"));
    // the suppressed run structure collapses to the same single run
    assert_eq!(out_split, "<w:p><w:r><w:t>a picture</w:t></w:r></w:p>");
    assert_eq!(out_single, "<w:p><w:r><w:t>a picture</w:t></w:r></w:p>");
}

#[test]
fn unknown_token_left_verbatim() {
    let mut tpl = DocxTemplate::new();
    tpl.add_text_replacement("{{known}}", "value");
    let doc = b"<w:p><w:r><w:t>{{unregistered}}</w:t></w:r></w:p>".to_vec();
    let out = String::from_utf8(tpl.process_document_xml(&doc).unwrap()).unwrap();
    assert_eq!(out, "<w:p><w:r><w:t>{{unregistered}}</w:t></w:r></w:p>");
}

#[test]
fn replacement_inside_larger_text() {
    let mut tpl = DocxTemplate::new();
    tpl.add_text_replacement("{{city}}", "Paris");
    let doc = b"<w:t>to {{city}} by train</w:t>".to_vec();
    let out = String::from_utf8(tpl.process_document_xml(&doc).unwrap()).unwrap();
    assert_eq!(out, "<w:t>to Paris by train</w:t>");
}

#[test]
fn longest_placeholder_wins() {
    let mut tpl = DocxTemplate::new();
    tpl.add_text_replacement("{{p}}", "short");
    tpl.add_text_replacement("{{p}}{{q}}", "long");
    let r = tpl.process_text(b"{{p}}{{q}}");
    assert_eq!(r, b"long".to_vec());
    let r2 = tpl.process_text(b"{{p}}x");
    assert_eq!(r2, b"shortx".to_vec());
}

#[test]
fn replacement_value_is_escaped() {
    let mut tpl = DocxTemplate::new();
    tpl.add_text_replacement("{{v}}", "A&B<C");
    let doc = b"<w:t>{{v}}</w:t>".to_vec();
    let out = String::from_utf8(tpl.process_document_xml(&doc).unwrap()).unwrap();
    assert_eq!(out, "<w:t>A&amp;B&lt;C</w:t>");
}

#[test]
fn malformed_xml_rejected() {
    let tpl = DocxTemplate::new();
    let doc = b"<w:t>&nosuchentity;</w:t>".to_vec();
    let r = tpl.process_document_xml(&doc);
    assert!(matches!(r, Err(DocxError::Xml(_))));
}

#[test]
fn comments_and_declarations_pass_through() {
    let tpl = DocxTemplate::new();
    let doc = b"<?xml version=\"1.0\"?><a><!-- note --><b/></a>".to_vec();
    let out = String::from_utf8(tpl.process_document_xml(&doc).unwrap()).unwrap();
    assert_eq!(out, "<?xml version=\"1.0\"?><a><!-- note --><b/></a>");
}

#[test]
fn placeholder_split_across_three_runs() {
    let mut tpl = DocxTemplate::new();
    tpl.add_text_replacement("{{photo}}", "resolved");
    let doc = b"<w:p><w:r><w:t>{{ph</w:t></w:r><w:r><w:t>ot</w:t></w:r><w:r><w:t>o}}</w:t></w:r></w:p>"
        .to_vec();
    let out = String::from_utf8(tpl.process_document_xml(&doc).unwrap()).unwrap();
    assert_eq!(out, "<w:p><w:r><w:t>resolved</w:t></w:r></w:p>");
}

#[test]
fn substituted_values_not_rescanned() {
    let mut tpl = DocxTemplate::new();
    tpl.add_text_replacement("{{a}}", "{{b}}");
    tpl.add_text_replacement("{{b}}", "X");
    // a single left-to-right scan: a substituted value is not matched again
    assert_eq!(tpl.process_text(b"{{a}}"), b"{{b}}".to_vec());
    assert_eq!(tpl.process_text(b"{{b}}"), b"X".to_vec());
}

#[test]
fn drawing_fragment_extents() {
    let events = create_drawing_element(b"rIdX", 1800000, 2124000);
    let bytes = serialize_xml_events(&events);
    let s = String::from_utf8(bytes).unwrap();
    assert!(s.starts_with("<w:drawing>"));
    assert!(s.ends_with("</w:drawing>"));
    assert!(s.contains("<wp:extent cx=\"1800000\" cy=\"2124000\"/>"));
    assert!(s.contains("<a:ext cx=\"1800000\" cy=\"2124000\"/>"));
    assert!(s.contains("r:embed=\"rIdX\""));
}
