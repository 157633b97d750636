//! The document model: the accumulated result of one parse, plus the
//! specification-level view (`DocM`) that every contract speaks of.

use vstd::prelude::*;
use crate::dates::CalendarDate;
use crate::error::OpfParseError;
use crate::text::lower;

verus! {

/// A trait for extracting common book metadata from a source, so that
/// alternate packaging dialects can offer the same capability set without
/// changing callers. Each spec method names the value an implementation
/// promises; every getter is bound to its spec method.
pub trait BookMetadataExtractor {
    /// The title an implementation reports.
    spec fn title_model(&self) -> Seq<char>;

    /// The author name an implementation reports.
    spec fn author_model(&self) -> Seq<char>;

    /// The language code an implementation reports.
    spec fn language_model(&self) -> Seq<char>;

    /// The publisher, if any.
    spec fn publisher_model(&self) -> Option<Seq<char>>;

    /// The description, if any.
    spec fn description_model(&self) -> Option<Seq<char>>;

    /// The publication date, if any, as year, month and day.
    spec fn date_model(&self) -> Option<(int, int, int)>;

    /// The normalized ISBN identifiers, in order.
    spec fn isbns_model(&self) -> Seq<Seq<char>>;

    /// The subject list, in order.
    spec fn subjects_model(&self) -> Seq<Seq<char>>;

    /// The resolved cover image path, absent cover included, or an error.
    spec fn cover_path_model(&self) -> Result<Option<Seq<char>>, OpfParseError>;

    fn get_title(&self) -> (r: String)
        ensures
            r@ == self.title_model(),
    ;

    fn get_author_name(&self) -> (r: String)
        ensures
            r@ == self.author_model(),
    ;

    fn get_language_code(&self) -> (r: String)
        ensures
            r@ == self.language_model(),
    ;

    fn get_publisher_name(&self) -> (r: Option<String>)
        ensures
            opt_view(r) == self.publisher_model(),
    ;

    fn get_description(&self) -> (r: Option<String>)
        ensures
            opt_view(r) == self.description_model(),
    ;

    fn get_publication_date(&self) -> (r: Option<CalendarDate>)
        ensures
            match r {
                Some(d) => d.wf() && self.date_model() == Some(
                    (d.year as int, d.month as int, d.day as int),
                ),
                None => self.date_model() is None,
            },
    ;

    fn get_isbns(&self) -> (r: Vec<String>)
        ensures
            r@.map_values(|s: String| s@) == self.isbns_model(),
    ;

    fn get_subjects(&self) -> (r: Vec<String>)
        ensures
            r@.map_values(|s: String| s@) == self.subjects_model(),
    ;

    fn cover_image_path(&self) -> (r: Result<Option<String>, OpfParseError>)
        ensures
            match r {
                Ok(Some(p)) => self.cover_path_model() == Ok::<Option<Seq<char>>, OpfParseError>(
                    Some(p@),
                ),
                Ok(None) => self.cover_path_model() == Ok::<Option<Seq<char>>, OpfParseError>(None),
                Err(e) => self.cover_path_model() == Err::<Option<Seq<char>>, OpfParseError>(e),
            },
    ;
}

/// One `dc:identifier` declaration: an optional scheme label (case preserved,
/// e.g. "ISBN") and the element's trimmed text content.
#[derive(Debug, Clone)]
pub struct Identifier {
    pub scheme: Option<String>,
    pub value: String,
}

/// One navigational reference from the guide section: a classifying type
/// (e.g. "cover", "toc"), an optional title, and a resource reference.
#[derive(Debug, Clone)]
pub struct GuideReference {
    pub ref_type: String,
    pub title: Option<String>,
    pub href: String,
}

impl Default for Identifier {
    /// An identifier with no scheme and an empty value.
    fn default() -> (r: Self)
        ensures
            r.scheme is None,
            r.value@ == Seq::<char>::empty(),
    {
        Identifier { scheme: None, value: String::new() }
    }
}

impl Default for GuideReference {
    /// A reference with empty type and href and no title.
    fn default() -> (r: Self)
        ensures
            r.ref_type@ == Seq::<char>::empty(),
            r.title is None,
            r.href@ == Seq::<char>::empty(),
    {
        GuideReference { ref_type: String::new(), title: None, href: String::new() }
    }
}

/// One metadata key with its ordered, non-empty list of values.
#[derive(Debug, Clone)]
pub struct MetaEntry {
    pub key: String,
    pub values: Vec<String>,
}

/// The accumulated result of one parse: a multi-valued mapping from
/// lowercased field key to values in document order, the root element's
/// unique-identifier attribute, the identifier declarations, the guide
/// references, and the source document's path.
#[derive(Debug, Clone)]
pub struct OpfDoc {
    pub metadata: Vec<MetaEntry>,
    pub unique_identifier_id: Option<String>,
    pub identifiers: Vec<Identifier>,
    pub guide: Vec<GuideReference>,
    pub file_path: String,
}

/// The mathematical view of a document model: every string as a character
/// sequence, every collection as a sequence.
pub ghost struct DocM {
    pub metadata: Seq<(Seq<char>, Seq<Seq<char>>)>,
    pub unique_identifier_id: Option<Seq<char>>,
    pub identifiers: Seq<(Option<Seq<char>>, Seq<char>)>,
    pub guide: Seq<(Seq<char>, Option<Seq<char>>, Seq<char>)>,
}

/// The view of an optional string.
pub open spec fn opt_view(o: Option<String>) -> Option<Seq<char>> {
    match o {
        Some(s) => Some(s@),
        None => None,
    }
}

/// The view of the metadata mapping.
pub open spec fn metadata_model(md: Seq<MetaEntry>) -> Seq<(Seq<char>, Seq<Seq<char>>)> {
    md.map_values(|e: MetaEntry| (e.key@, e.values@.map_values(|v: String| v@)))
}

/// The view of the identifier collection.
pub open spec fn identifiers_model(ids: Seq<Identifier>) -> Seq<(Option<Seq<char>>, Seq<char>)> {
    ids.map_values(|id: Identifier| (opt_view(id.scheme), id.value@))
}

/// The view of the guide collection.
pub open spec fn guide_model(gd: Seq<GuideReference>) -> Seq<(Seq<char>, Option<Seq<char>>, Seq<char>)> {
    gd.map_values(|g: GuideReference| (g.ref_type@, opt_view(g.title), g.href@))
}

impl OpfDoc {
    /// The mathematical view of this document.
    pub open spec fn model(&self) -> DocM {
        DocM {
            metadata: metadata_model(self.metadata@),
            unique_identifier_id: opt_view(self.unique_identifier_id),
            identifiers: identifiers_model(self.identifiers@),
            guide: guide_model(self.guide@),
        }
    }
}

/// The invariant of an accumulated metadata mapping: keys are normalized to
/// lower case, no two entries share a key, and a key is only present with at
/// least one value.
pub open spec fn doc_wf(d: DocM) -> bool {
    &&& forall|i: int| 0 <= i < d.metadata.len() ==> (#[trigger] d.metadata[i]).1.len() > 0
    &&& forall|i: int| 0 <= i < d.metadata.len() ==> (#[trigger] d.metadata[i]).0 == lower(d.metadata[i].0)
    &&& forall|i: int, j: int|
        0 <= i < j < d.metadata.len() ==> (#[trigger] d.metadata[i]).0 != (#[trigger] d.metadata[j]).0
}

} // verus!
