//! The high-level metadata view over a parsed document: field getters with
//! their defaults, subject splitting, ISBN extraction, publication-date
//! fallback parsing, and cover-reference resolution.

use vstd::prelude::*;
use vstd::string::{StrSliceExecFns, StringExecFns};
use crate::dates::{CalendarDate, parse_simple_date, spec_simple_date};
use crate::error::OpfParseError;
use crate::models::{BookMetadataExtractor, Identifier, OpfDoc, opt_view, identifiers_model};
use crate::text::{lower, trim, trim_str, to_lower, str_eq, push_char};

verus! {

/// The calendar date an RFC 3339 timestamp denotes, or nothing when the
/// string is not such a timestamp. The name stands for what chrono computes;
/// it is a function of the string alone.
pub uninterp spec fn rfc3339_date_of(s: Seq<char>) -> Option<(int, int, int)>;

/// Relies on chrono's DateTime::parse_from_rfc3339 and date_naive: the
/// calendar date of an RFC 3339 timestamp. A parsed timestamp always holds a
/// real calendar date.
#[verifier::external_body]
fn parse_rfc3339_date(s: &str) -> (r: Option<CalendarDate>)
    ensures
        match r {
            Some(d) => rfc3339_date_of(s@) == Some((d.year as int, d.month as int, d.day as int))
                && d.wf(),
            None => rfc3339_date_of(s@) is None,
        },
{
    match chrono::DateTime::parse_from_rfc3339(s) {
        Ok(dt) => {
            let nd = dt.date_naive();
            Some(
                CalendarDate {
                    year: chrono::Datelike::year(&nd),
                    month: chrono::Datelike::month(&nd) as u8,
                    day: chrono::Datelike::day(&nd) as u8,
                },
            )
        },
        Err(_) => None,
    }
}

/// The text a percent-encoded string decodes to, or nothing when the decoded
/// bytes are not valid UTF-8. The name stands for what urlencoding computes;
/// it is a function of the string alone.
pub uninterp spec fn percent_decoded(s: Seq<char>) -> Option<Seq<char>>;

/// Relies on urlencoding's decode: resolves percent-encoded bytes, failing
/// exactly when the decoded bytes are not valid UTF-8 text.
#[verifier::external_body]
fn url_decode(s: &str) -> (r: Result<String, OpfParseError>)
    ensures
        match r {
            Ok(t) => percent_decoded(s@) == Some(t@),
            Err(e) => percent_decoded(s@) is None && e == OpfParseError::UrlDecode,
        },
{
    match urlencoding::decode(s) {
        Ok(t) => Ok(t.into_owned()),
        Err(_) => Err(OpfParseError::UrlDecode),
    }
}

/// The sequence with every '-' removed.
pub open spec fn without_hyphens(s: Seq<char>) -> Seq<char>
    decreases s.len(),
{
    if s.len() == 0 {
        s
    } else if s.last() == '-' {
        without_hyphens(s.drop_last())
    } else {
        without_hyphens(s.drop_last()).push(s.last())
    }
}

/// An identifier value as an ISBN is reported: hyphens removed, then
/// trimmed.
pub open spec fn isbn_normal(v: Seq<char>) -> Seq<char> {
    trim(without_hyphens(v))
}

/// Whether an identifier's scheme names ISBN, case-insensitively.
pub open spec fn is_isbn_scheme(sch: Option<Seq<char>>) -> bool {
    match sch {
        Some(s) => lower(s) == "isbn"@,
        None => false,
    }
}

/// The normalized values of the ISBN-schemed identifiers, in document
/// order.
pub open spec fn spec_isbns(ids: Seq<(Option<Seq<char>>, Seq<char>)>) -> Seq<Seq<char>>
    decreases ids.len(),
{
    if ids.len() == 0 {
        Seq::empty()
    } else {
        let rest = spec_isbns(ids.drop_last());
        if is_isbn_scheme(ids.last().0) {
            rest.push(isbn_normal(ids.last().1))
        } else {
            rest
        }
    }
}

/// One character of the ';' split: a ';' closes the current part, any other
/// character extends it.
pub open spec fn split_step() -> spec_fn(Seq<Seq<char>>, char) -> Seq<Seq<char>> {
    |acc: Seq<Seq<char>>, c: char|
        if c == ';' {
            acc.push(Seq::<char>::empty())
        } else {
            acc.update(acc.len() - 1, acc.last().push(c))
        }
}

/// The parts of a value split on ';', empties included.
pub open spec fn split_semi(s: Seq<char>) -> Seq<Seq<char>> {
    s.fold_left(seq![Seq::<char>::empty()], split_step())
}

/// The parts, each trimmed, with empty results dropped, in order.
pub open spec fn clean_parts(parts: Seq<Seq<char>>) -> Seq<Seq<char>>
    decreases parts.len(),
{
    if parts.len() == 0 {
        Seq::empty()
    } else {
        let rest = clean_parts(parts.drop_last());
        if trim(parts.last()).len() > 0 {
            rest.push(trim(parts.last()))
        } else {
            rest
        }
    }
}

/// The subjects one stored value contributes: its non-empty trimmed
/// ';'-separated parts.
pub open spec fn subject_parts(v: Seq<char>) -> Seq<Seq<char>> {
    clean_parts(split_semi(v))
}

/// The subjects a list of stored values contributes, in order.
pub open spec fn subjects_of_values(values: Seq<Seq<char>>) -> Seq<Seq<char>>
    decreases values.len(),
{
    if values.len() == 0 {
        Seq::empty()
    } else {
        subjects_of_values(values.drop_last()) + subject_parts(values.last())
    }
}

/// The subject list of a document: nothing stored under "subject" yields no
/// subjects.
pub open spec fn spec_subjects(values: Option<Seq<Seq<char>>>) -> Seq<Seq<char>> {
    match values {
        None => Seq::empty(),
        Some(vs) => subjects_of_values(vs),
    }
}

/// The publication date of a stored date value: a full RFC 3339 timestamp
/// wins, then the plain forms year-month-day, year-month, year.
pub open spec fn spec_pub_date(date_field: Option<Seq<char>>) -> Option<(int, int, int)> {
    match date_field {
        None => None,
        Some(s) => match rfc3339_date_of(s) {
            Some(t) => Some(t),
            None => spec_simple_date(s),
        },
    }
}

/// Whether a path has a containing directory to resolve a reference
/// against: an empty or root-only path (nothing but separators) has none.
pub open spec fn has_parent_dir(p: Seq<char>) -> bool {
    exists|i: int| 0 <= i < p.len() && p[i] != '/'
}

/// The directory prefix of a path: everything up to and including the last
/// '/', empty when the path holds none.
pub open spec fn dir_prefix(p: Seq<char>) -> Seq<char>
    decreases p.len(),
{
    if p.len() == 0 {
        p
    } else if p.last() == '/' {
        p
    } else {
        dir_prefix(p.drop_last())
    }
}

/// The string with every '-' removed.
fn strip_hyphens(s: &str) -> (r: String)
    ensures
        r@ == without_hyphens(s@),
{
    let n = s.unicode_len();
    let mut r = String::new();
    let mut i: usize = 0;
    while i < n
        invariant
            i <= n,
            n == s@.len(),
            r@ == without_hyphens(s@.take(i as int)),
        decreases n - i,
    {
        proof {
            assert(s@.take(i + 1).drop_last() =~= s@.take(i as int));
        }
        let c = s.get_char(i);
        if !(c == '-') {
            push_char(&mut r, c);
        }
        i += 1;
    }
    proof {
        assert(s@.take(n as int) =~= s@);
    }
    r
}

/// Splits one stored value on ';' and appends its non-empty trimmed parts.
fn split_clean_into(s: &str, out: &mut Vec<String>)
    ensures
        final(out)@.map_values(|t: String| t@) == old(out)@.map_values(|t: String| t@)
            + subject_parts(s@),
{
    let n = s.unicode_len();
    let mut cur = String::new();
    let ghost mut parts_done: Seq<Seq<char>> = Seq::empty();
    let mut i: usize = 0;
    proof {
        assert(s@.take(0) =~= Seq::<char>::empty());
        assert(split_semi(s@.take(0)) == parts_done.push(cur@));
    }
    while i < n
        invariant
            i <= n,
            n == s@.len(),
            split_semi(s@.take(i as int)) == parts_done.push(cur@),
            out@.map_values(|t: String| t@) == old(out)@.map_values(|t: String| t@)
                + clean_parts(parts_done),
        decreases n - i,
    {
        proof {
            assert(s@.take(i + 1).drop_last() =~= s@.take(i as int));
        }
        let c = s.get_char(i);
        if c == ';' {
            let t = trim_str(cur.as_str());
            let ghost out0 = out@.map_values(|t: String| t@);
            if t.unicode_len() > 0 {
                out.push(t);
            }
            proof {
                let parts0 = parts_done;
                parts_done = parts_done.push(cur@);
                assert(parts_done.drop_last() =~= parts0);
                assert(split_semi(s@.take(i + 1)) =~= parts_done.push(Seq::<char>::empty()));
                if trim(cur@).len() > 0 {
                    assert(out@.map_values(|t: String| t@) =~= out0.push(trim(cur@)));
                }
                assert(clean_parts(parts_done) =~= if trim(cur@).len() > 0 {
                    clean_parts(parts0).push(trim(cur@))
                } else {
                    clean_parts(parts0)
                });
                assert(out@.map_values(|t: String| t@) =~= old(out)@.map_values(|t: String| t@)
                    + clean_parts(parts_done));
            }
            cur = String::new();
        } else {
            push_char(&mut cur, c);
            proof {
                assert(split_semi(s@.take(i + 1)) =~= parts_done.push(cur@));
            }
        }
        i += 1;
    }
    let t = trim_str(cur.as_str());
    let ghost out0 = out@.map_values(|t: String| t@);
    if t.unicode_len() > 0 {
        out.push(t);
    }
    proof {
        assert(s@.take(n as int) =~= s@);
        let parts0 = parts_done;
        parts_done = parts_done.push(cur@);
        assert(parts_done.drop_last() =~= parts0);
        if trim(cur@).len() > 0 {
            assert(out@.map_values(|t: String| t@) =~= out0.push(trim(cur@)));
        }
        assert(clean_parts(parts_done) =~= if trim(cur@).len() > 0 {
            clean_parts(parts0).push(trim(cur@))
        } else {
            clean_parts(parts0)
        });
        assert(out@.map_values(|t: String| t@) =~= old(out)@.map_values(|t: String| t@)
            + clean_parts(parts_done));
    }
}

/// Whether a path has a containing directory, executable form.
fn has_parent_dir_x(p: &str) -> (r: bool)
    ensures
        r == has_parent_dir(p@),
{
    let n = p.unicode_len();
    let mut i: usize = 0;
    while i < n
        invariant
            i <= n,
            n == p@.len(),
            forall|j: int| 0 <= j < i ==> p@[j] == '/',
        decreases n - i,
    {
        if !(p.get_char(i) == '/') {
            return true;
        }
        i += 1;
    }
    false
}

/// The directory prefix of a path, executable form.
fn dir_prefix_x(p: &str) -> (r: String)
    ensures
        r@ == dir_prefix(p@),
{
    let n = p.unicode_len();
    let mut b: usize = n;
    while b > 0 && !(p.get_char(b - 1) == '/')
        invariant
            b <= n,
            n == p@.len(),
            forall|j: int| b <= j < n ==> p@[j] != '/',
        decreases b,
    {
        b -= 1;
    }
    let pre = p.substring_char(0, b);
    proof {
        lemma_dir_prefix(p@, b as int);
        assert(p@.subrange(0, b as int) =~= p@.take(b as int));
    }
    String::from_str(pre)
}

proof fn lemma_dir_prefix(p: Seq<char>, b: int)
    requires
        0 <= b <= p.len(),
        forall|j: int| b <= j < p.len() ==> p[j] != '/',
        b > 0 ==> p[b - 1] == '/',
    ensures
        dir_prefix(p) == p.take(b),
    decreases p.len(),
{
    if p.len() == 0 {
        assert(p.take(0) =~= p);
    } else if p.last() == '/' {
        assert(b == p.len());
        assert(p.take(b) =~= p);
    } else {
        assert(b < p.len());
        lemma_dir_prefix(p.drop_last(), b);
        assert(p.drop_last().take(b) =~= p.take(b));
    }
}

/// An adapter that wraps a parsed document to provide the high-level
/// metadata view.
pub struct OpfMetadataExtractor {
    doc: OpfDoc,
}

impl View for OpfMetadataExtractor {
    type V = OpfDoc;

    closed spec fn view(&self) -> OpfDoc {
        self.doc
    }
}

impl OpfMetadataExtractor {
    /// Wraps a parsed document.
    pub fn new(doc: OpfDoc) -> (s: Self)
        ensures
            s@ == doc,
    {
        OpfMetadataExtractor { doc }
    }

}

impl BookMetadataExtractor for OpfMetadataExtractor {
    /// The first stored title, or "Unknown Title".
    open spec fn title_model(&self) -> Seq<char> {
        match self@.spec_mdata("title"@) {
            Some(v) => v,
            None => "Unknown Title"@,
        }
    }

    /// The first stored creator, or "Unknown Author".
    open spec fn author_model(&self) -> Seq<char> {
        match self@.spec_mdata("creator"@) {
            Some(v) => v,
            None => "Unknown Author"@,
        }
    }

    /// The first stored language, or the undetermined-language code "und".
    open spec fn language_model(&self) -> Seq<char> {
        match self@.spec_mdata("language"@) {
            Some(v) => v,
            None => "und"@,
        }
    }

    /// The first stored publisher, if any.
    open spec fn publisher_model(&self) -> Option<Seq<char>> {
        self@.spec_mdata("publisher"@)
    }

    /// The first stored description, if any.
    open spec fn description_model(&self) -> Option<Seq<char>> {
        self@.spec_mdata("description"@)
    }

    /// The publication date of the first stored date value, under the format
    /// fallback.
    open spec fn date_model(&self) -> Option<(int, int, int)> {
        spec_pub_date(self@.spec_mdata("date"@))
    }

    /// The normalized values of the ISBN-schemed identifiers.
    open spec fn isbns_model(&self) -> Seq<Seq<char>> {
        spec_isbns(self@.model().identifiers)
    }

    /// The non-empty trimmed ';'-separated parts of the stored subjects.
    open spec fn subjects_model(&self) -> Seq<Seq<char>> {
        spec_subjects(self@.spec_mdata_all("subject"@))
    }

    /// The first cover guide reference's href, percent-decoded, joined onto
    /// the source document's directory; no cover yields no path, a href that
    /// does not decode is an error.
    open spec fn cover_path_model(&self) -> Result<Option<Seq<char>>, OpfParseError> {
        match self@.spec_cover_href() {
            None => Ok(None),
            Some(h) => if !has_parent_dir(self@.file_path@) {
                Ok(None)
            } else {
                match percent_decoded(h) {
                    Some(d) => if d.len() > 0 && d[0] == '/' {
                        Ok(Some(d))
                    } else {
                        Ok(Some(dir_prefix(self@.file_path@) + d))
                    },
                    None => Err(OpfParseError::UrlDecode),
                }
            },
        }
    }

    fn get_title(&self) -> (r: String) {
        match self.doc.mdata("title") {
            Some(t) => t,
            None => String::from_str("Unknown Title"),
        }
    }

    fn get_author_name(&self) -> (r: String) {
        match self.doc.mdata("creator") {
            Some(t) => t,
            None => String::from_str("Unknown Author"),
        }
    }

    fn get_language_code(&self) -> (r: String) {
        match self.doc.mdata("language") {
            Some(t) => t,
            None => String::from_str("und"),
        }
    }

    fn get_publisher_name(&self) -> (r: Option<String>) {
        self.doc.mdata("publisher")
    }

    fn get_description(&self) -> (r: Option<String>) {
        self.doc.mdata("description")
    }

    fn get_publication_date(&self) -> (r: Option<CalendarDate>) {
        match self.doc.mdata("date") {
            None => None,
            Some(ds) => match parse_rfc3339_date(ds.as_str()) {
                Some(d) => Some(d),
                None => parse_simple_date(ds.as_str()),
            },
        }
    }

    fn get_isbns(&self) -> (r: Vec<String>) {
        let mut out: Vec<String> = Vec::new();
        let n = self.doc.identifiers.len();
        let mut i: usize = 0;
        proof {
            assert(identifiers_model(self.doc.identifiers@.take(0))
                =~= Seq::<(Option<Seq<char>>, Seq<char>)>::empty());
            assert(out@.map_values(|s: String| s@) =~= Seq::<Seq<char>>::empty());
        }
        while i < n
            invariant
                i <= n,
                n == self.doc.identifiers@.len(),
                out@.map_values(|s: String| s@) == spec_isbns(
                    identifiers_model(self.doc.identifiers@.take(i as int)),
                ),
            decreases n - i,
        {
            proof {
                assert(identifiers_model(self.doc.identifiers@.take(i + 1)).drop_last()
                    =~= identifiers_model(self.doc.identifiers@.take(i as int)));
            }
            let id = &self.doc.identifiers[i];
            let keep = match &id.scheme {
                Some(s) => {
                    let ls = to_lower(s.as_str());
                    str_eq(ls.as_str(), "isbn")
                },
                None => false,
            };
            let ghost out0 = out@.map_values(|s: String| s@);
            if keep {
                let stripped = strip_hyphens(id.value.as_str());
                let v = trim_str(stripped.as_str());
                out.push(v);
                proof {
                    assert(out@.map_values(|s: String| s@) =~= out0.push(isbn_normal(id.value@)));
                }
            }
            i += 1;
        }
        proof {
            assert(self.doc.identifiers@.take(n as int) =~= self.doc.identifiers@);
        }
        out
    }

    fn get_subjects(&self) -> (r: Vec<String>) {
        let mut out: Vec<String> = Vec::new();
        match self.doc.mdata_all("subject") {
            None => {
                proof {
                    assert(out@.map_values(|s: String| s@) =~= Seq::<Seq<char>>::empty());
                }
                out
            },
            Some(values) => {
                let ghost vm = values@.map_values(|s: String| s@);
                let n = values.len();
                let mut i: usize = 0;
                proof {
                    assert(vm.take(0) =~= Seq::<Seq<char>>::empty());
                    assert(out@.map_values(|s: String| s@) =~= Seq::<Seq<char>>::empty());
                }
                while i < n
                    invariant
                        i <= n,
                        n == values@.len(),
                        vm == values@.map_values(|s: String| s@),
                        out@.map_values(|s: String| s@) == subjects_of_values(vm.take(i as int)),
                    decreases n - i,
                {
                    proof {
                        assert(vm.take(i + 1).drop_last() =~= vm.take(i as int));
                    }
                    split_clean_into(values[i].as_str(), &mut out);
                    i += 1;
                }
                proof {
                    assert(vm.take(n as int) =~= vm);
                }
                out
            },
        }
    }

    fn cover_image_path(&self) -> (r: Result<Option<String>, OpfParseError>) {
        match self.doc.cover_href() {
            None => Ok(None),
            Some(href) => {
                if !has_parent_dir_x(self.doc.file_path.as_str()) {
                    return Ok(None);
                }
                match url_decode(href.as_str()) {
                    Err(e) => Err(e),
                    Ok(decoded) => {
                        if decoded.as_str().unicode_len() > 0 && decoded.as_str().get_char(0)
                            == '/' {
                            return Ok(Some(decoded));
                        }
                        let base = dir_prefix_x(self.doc.file_path.as_str());
                        let full = base.concat(decoded.as_str());
                        Ok(Some(full))
                    },
                }
            },
        }
    }
}

} // verus!
