//! Tests of the extraction engine and the document model lookups, run over
//! documents parsed with the real tokenizer.

use calibre_opf_parser::{BookMetadataExtractor, OpfDoc, OpfMetadataExtractor, OpfParseError};

fn parse(xml: &str) -> OpfDoc {
    OpfDoc::from_bytes(xml.as_bytes(), String::from("books/demo/metadata.opf")).unwrap()
}

#[test]
fn title_lookup_is_case_insensitive() {
    let doc = parse("<package><metadata><dc:title>Foo</dc:title></metadata></package>");
    assert_eq!(doc.mdata("title"), Some(String::from("Foo")));
    assert_eq!(doc.mdata("TITLE"), Some(String::from("Foo")));
    assert_eq!(doc.mdata("TiTlE"), Some(String::from("Foo")));
    assert_eq!(doc.mdata("creator"), None);
}

#[test]
fn values_accumulate_in_document_order() {
    let doc = parse(
        "<package><metadata>\
         <dc:creator>First</dc:creator>\
         <dc:creator>Second</dc:creator>\
         </metadata></package>",
    );
    assert_eq!(doc.mdata("creator"), Some(String::from("First")));
    let all = doc.mdata_all("creator").unwrap();
    assert_eq!(all, &vec![String::from("First"), String::from("Second")]);
}

#[test]
fn dc_keys_are_lowercased_and_text_trimmed() {
    let doc = parse(
        "<package><metadata><dc:Title>  Spaced Out \n</dc:Title></metadata></package>",
    );
    assert_eq!(doc.mdata("title"), Some(String::from("Spaced Out")));
}

#[test]
fn meta_name_content_pairs_are_stored() {
    let doc = parse(
        "<package><metadata>\
         <meta name=\"calibre:series\" content=\"The Saga\"/>\
         <meta name=\"orphan\"/>\
         <meta content=\"orphan too\"/>\
         </metadata></package>",
    );
    assert_eq!(doc.mdata("calibre:series"), Some(String::from("The Saga")));
    assert_eq!(doc.mdata("orphan"), None);
}

#[test]
fn identifiers_capture_scheme_and_value() {
    let doc = parse(
        "<package unique-identifier=\"uuid_id\"><metadata>\
         <dc:identifier opf:scheme=\"ISBN\">978-0-13-468599-1</dc:identifier>\
         <dc:identifier id=\"uuid_id\">abc-def</dc:identifier>\
         </metadata></package>",
    );
    assert_eq!(doc.unique_identifier_id, Some(String::from("uuid_id")));
    assert_eq!(doc.identifiers.len(), 2);
    assert_eq!(doc.identifiers[0].scheme, Some(String::from("ISBN")));
    assert_eq!(doc.identifiers[0].value, String::from("978-0-13-468599-1"));
    assert_eq!(doc.identifiers[1].scheme, None);
    assert_eq!(doc.identifiers[1].value, String::from("abc-def"));
    assert!(doc.mdata("identifier").is_none());
}

#[test]
fn unrecognized_subtree_is_skipped_whole() {
    let doc = parse(
        "<package><metadata>\
         <dc:title>Foo</dc:title>\
         <unknown><child><dc:creator>Hidden</dc:creator>stray text</child></unknown>\
         <dc:creator>Visible</dc:creator>\
         </metadata></package>",
    );
    assert_eq!(doc.mdata("title"), Some(String::from("Foo")));
    assert_eq!(doc.mdata("creator"), Some(String::from("Visible")));
    assert_eq!(doc.mdata_all("creator").unwrap().len(), 1);
    assert_eq!(doc.mdata("unknown"), None);
    assert_eq!(doc.mdata("child"), None);
}

#[test]
fn guide_reference_yields_cover_href_any_case() {
    let doc = parse(
        "<package><guide>\
         <reference type=\"Cover\" href=\"images/cover.jpg\"/>\
         <reference type=\"toc\" title=\"Contents\" href=\"toc.html\"/>\
         </guide></package>",
    );
    assert_eq!(doc.cover_href(), Some(String::from("images/cover.jpg")));
    assert_eq!(doc.guide.len(), 2);
    assert_eq!(doc.guide[1].title, Some(String::from("Contents")));
}

#[test]
fn no_cover_reference_yields_none() {
    let doc = parse(
        "<package><guide><reference type=\"toc\" href=\"toc.html\"/></guide></package>",
    );
    assert_eq!(doc.cover_href(), None);
    let x = OpfMetadataExtractor::new(doc);
    assert_eq!(x.cover_image_path(), Ok(None));
}

#[test]
fn cover_path_joins_document_directory() {
    let doc = parse(
        "<package><guide><reference type=\"cover\" href=\"img%20dir/cover.jpg\"/></guide></package>",
    );
    let x = OpfMetadataExtractor::new(doc);
    assert_eq!(
        x.cover_image_path(),
        Ok(Some(String::from("books/demo/img dir/cover.jpg")))
    );
}

#[test]
fn cover_without_containing_directory_is_no_data() {
    let xml = "<package><guide><reference type=\"cover\" href=\"c.jpg\"/></guide></package>";
    let rootless =
        OpfMetadataExtractor::new(OpfDoc::from_bytes(xml.as_bytes(), String::from("")).unwrap());
    assert_eq!(rootless.cover_image_path(), Ok(None));
    let root_only =
        OpfMetadataExtractor::new(OpfDoc::from_bytes(xml.as_bytes(), String::from("/")).unwrap());
    assert_eq!(root_only.cover_image_path(), Ok(None));
    let bare_file = OpfMetadataExtractor::new(
        OpfDoc::from_bytes(xml.as_bytes(), String::from("metadata.opf")).unwrap(),
    );
    assert_eq!(bare_file.cover_image_path(), Ok(Some(String::from("c.jpg"))));
}

#[test]
fn absolute_cover_href_stands_alone() {
    let xml =
        "<package><guide><reference type=\"cover\" href=\"/media/cover.jpg\"/></guide></package>";
    let x = OpfMetadataExtractor::new(
        OpfDoc::from_bytes(xml.as_bytes(), String::from("books/demo/metadata.opf")).unwrap(),
    );
    assert_eq!(x.cover_image_path(), Ok(Some(String::from("/media/cover.jpg"))));
}

#[test]
fn empty_dc_element_stores_empty_value() {
    let doc = parse("<package><metadata><dc:title/></metadata></package>");
    assert_eq!(doc.mdata("title"), Some(String::from("")));
}

#[test]
fn elements_outside_sections_are_ignored() {
    let doc = parse(
        "<package><manifest><dc:title>Nope</dc:title></manifest>\
         <metadata><dc:title>Yes</dc:title></metadata></package>",
    );
    assert_eq!(doc.mdata("title"), Some(String::from("Yes")));
    assert_eq!(doc.mdata_all("title").unwrap().len(), 1);
}

#[test]
fn text_entities_are_unescaped() {
    let doc = parse(
        "<package><metadata><dc:title>Tom &amp; Jerry</dc:title></metadata></package>",
    );
    assert_eq!(doc.mdata("title"), Some(String::from("Tom & Jerry")));
}

#[test]
fn malformed_markup_is_an_error() {
    let r = OpfDoc::from_bytes(
        "<package><metadata></package>".as_bytes(),
        String::from("x.opf"),
    );
    assert_eq!(r.unwrap_err(), OpfParseError::Xml);
}

#[test]
fn invalid_utf8_attribute_is_an_error() {
    let mut bytes = b"<package unique-identifier=\"".to_vec();
    bytes.extend_from_slice(&[0xff, 0xfe]);
    bytes.extend_from_slice(b"\"></package>");
    let r = OpfDoc::from_bytes(&bytes, String::from("x.opf"));
    assert_eq!(r.unwrap_err(), OpfParseError::Utf8);
}

#[test]
fn undecodable_cover_href_is_a_decode_error() {
    let doc = OpfDoc::from_bytes(
        "<package><guide><reference type=\"cover\" href=\"%ff%fe.jpg\"/></guide></package>"
            .as_bytes(),
        String::from("dir/x.opf"),
    )
    .unwrap();
    let x = OpfMetadataExtractor::new(doc);
    assert_eq!(x.cover_image_path(), Err(OpfParseError::UrlDecode));
}

#[test]
fn reparsing_yields_identical_models() {
    let xml = "<package unique-identifier=\"id\"><metadata>\
               <dc:title>Foo</dc:title>\
               <dc:subject>a; b</dc:subject>\
               <dc:identifier scheme=\"ISBN\">1-2-3</dc:identifier>\
               </metadata>\
               <guide><reference type=\"cover\" href=\"c.png\"/></guide></package>";
    let d1 = parse(xml);
    let d2 = parse(xml);
    assert_eq!(d1.unique_identifier_id, d2.unique_identifier_id);
    assert_eq!(d1.metadata.len(), d2.metadata.len());
    for (e1, e2) in d1.metadata.iter().zip(d2.metadata.iter()) {
        assert_eq!(e1.key, e2.key);
        assert_eq!(e1.values, e2.values);
    }
    assert_eq!(d1.identifiers.len(), d2.identifiers.len());
    for (i1, i2) in d1.identifiers.iter().zip(d2.identifiers.iter()) {
        assert_eq!(i1.scheme, i2.scheme);
        assert_eq!(i1.value, i2.value);
    }
    assert_eq!(d1.guide.len(), d2.guide.len());
    for (g1, g2) in d1.guide.iter().zip(d2.guide.iter()) {
        assert_eq!(g1.ref_type, g2.ref_type);
        assert_eq!(g1.title, g2.title);
        assert_eq!(g1.href, g2.href);
    }
    assert_eq!(d1.file_path, d2.file_path);
}
