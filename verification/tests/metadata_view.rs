//! Tests of the high-level metadata view: getters with their defaults,
//! subject splitting, ISBN normalization, and the publication-date fallback.

use calibre_opf_parser::{
    BookMetadataExtractor, CalendarDate, OpfDoc, OpfMetadataExtractor,
};

fn extractor(xml: &str) -> OpfMetadataExtractor {
    OpfMetadataExtractor::new(
        OpfDoc::from_bytes(xml.as_bytes(), String::from("lib/book/metadata.opf")).unwrap(),
    )
}

fn with_date(d: &str) -> OpfMetadataExtractor {
    extractor(&format!(
        "<package><metadata><dc:date>{}</dc:date></metadata></package>",
        d
    ))
}

#[test]
fn getters_report_stored_fields() {
    let x = extractor(
        "<package><metadata>\
         <dc:title>A Study</dc:title>\
         <dc:creator>An Author</dc:creator>\
         <dc:language>en</dc:language>\
         <dc:publisher>A House</dc:publisher>\
         <dc:description>Short.</dc:description>\
         </metadata></package>",
    );
    assert_eq!(x.get_title(), "A Study");
    assert_eq!(x.get_author_name(), "An Author");
    assert_eq!(x.get_language_code(), "en");
    assert_eq!(x.get_publisher_name(), Some(String::from("A House")));
    assert_eq!(x.get_description(), Some(String::from("Short.")));
}

#[test]
fn getters_fall_back_on_missing_fields() {
    let x = extractor("<package><metadata></metadata></package>");
    assert_eq!(x.get_title(), "Unknown Title");
    assert_eq!(x.get_author_name(), "Unknown Author");
    assert_eq!(x.get_language_code(), "und");
    assert_eq!(x.get_publisher_name(), None);
    assert_eq!(x.get_description(), None);
    assert_eq!(x.get_publication_date(), None);
    assert_eq!(x.get_isbns(), Vec::<String>::new());
    assert_eq!(x.get_subjects(), Vec::<String>::new());
}

#[test]
fn subjects_split_trim_and_drop_empties() {
    let x = extractor(
        "<package><metadata>\
         <dc:subject>alpha; beta ;; gamma</dc:subject>\
         <dc:subject>  </dc:subject>\
         <dc:subject>delta</dc:subject>\
         </metadata></package>",
    );
    assert_eq!(
        x.get_subjects(),
        vec![
            String::from("alpha"),
            String::from("beta"),
            String::from("gamma"),
            String::from("delta"),
        ]
    );
}

#[test]
fn subjects_agree_with_splitting_the_joined_text() {
    let split = extractor(
        "<package><metadata>\
         <dc:subject>history; science</dc:subject>\
         <dc:subject>maps</dc:subject>\
         </metadata></package>",
    );
    let joined = extractor(
        "<package><metadata>\
         <dc:subject>history; science;maps</dc:subject>\
         </metadata></package>",
    );
    assert_eq!(split.get_subjects(), joined.get_subjects());
    assert_eq!(
        split.get_subjects(),
        vec![
            String::from("history"),
            String::from("science"),
            String::from("maps"),
        ]
    );
}

#[test]
fn isbn_extraction_strips_hyphens_case_insensitively() {
    let x = extractor(
        "<package><metadata>\
         <dc:identifier opf:scheme=\"ISBN\">978-0-13-468599-1</dc:identifier>\
         <dc:identifier scheme=\"isbn\">978-0-13-468599-1</dc:identifier>\
         <dc:identifier opf:scheme=\"URI\">http://example.com</dc:identifier>\
         <dc:identifier>no-scheme</dc:identifier>\
         </metadata></package>",
    );
    assert_eq!(
        x.get_isbns(),
        vec![String::from("9780134685991"), String::from("9780134685991")]
    );
}

#[test]
fn date_full_timestamp_wins() {
    let x = with_date("2020-05-01T00:00:00Z");
    assert_eq!(
        x.get_publication_date(),
        Some(CalendarDate { year: 2020, month: 5, day: 1 })
    );
}

#[test]
fn date_year_month_day_form() {
    let x = with_date("2019-12-31");
    assert_eq!(
        x.get_publication_date(),
        Some(CalendarDate { year: 2019, month: 12, day: 31 })
    );
}

#[test]
fn date_year_month_form_means_first_of_month() {
    let x = with_date("2020-05");
    assert_eq!(
        x.get_publication_date(),
        Some(CalendarDate { year: 2020, month: 5, day: 1 })
    );
}

#[test]
fn date_year_form_means_january_first() {
    let x = with_date("2020");
    assert_eq!(
        x.get_publication_date(),
        Some(CalendarDate { year: 2020, month: 1, day: 1 })
    );
}

#[test]
fn unparseable_date_is_absent_not_an_error() {
    assert_eq!(with_date("last spring").get_publication_date(), None);
    assert_eq!(with_date("2020-13").get_publication_date(), None);
    assert_eq!(with_date("2019-02-29").get_publication_date(), None);
}

#[test]
fn leap_day_is_accepted_in_leap_years() {
    let x = with_date("2020-02-29");
    assert_eq!(
        x.get_publication_date(),
        Some(CalendarDate { year: 2020, month: 2, day: 29 })
    );
}
