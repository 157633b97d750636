//! The stream extraction engine: a single forward pass over the XML event
//! stream that accumulates the document model. The whole traversal is
//! specified as a fold of a pure step function over the event sequence, and
//! the executable engine is proved to compute exactly that fold.

use vstd::prelude::*;
use vstd::seq_lib::*;
use crate::error::OpfParseError;
use crate::models::{DocM, GuideReference, Identifier, MetaEntry, OpfDoc, guide_model,
    identifiers_model, metadata_model, opt_view};
use crate::text::{lower, trim, trim_str, to_lower, str_eq};
use crate::xml::{Tag, XmlEvent, events_of, tokenize};

verus! {

/// Where accumulated text content will be committed: a metadata field under
/// a lowercased key, or an identifier with its scheme.
pub enum Target {
    Field(String),
    Ident(Option<String>),
}

/// The traversal mode: dispatching at the top level, accumulating the text
/// content of a recognized metadata element, or skipping the subtree of an
/// unrecognized element at the given depth.
pub enum Mode {
    Top,
    InText(Target, String),
    InSkip(usize),
}

/// The view of a commit target.
pub ghost enum TargetM {
    Field(Seq<char>),
    Ident(Option<Seq<char>>),
}

/// The view of a traversal mode.
pub ghost enum ModeM {
    Top,
    InText(TargetM, Seq<char>),
    InSkip(int),
}

/// The whole traversal state: the two section flags, the mode, and the
/// accumulated document.
pub ghost struct StM {
    pub in_metadata: bool,
    pub in_guide: bool,
    pub mode: ModeM,
    pub doc: DocM,
}

pub open spec fn target_model(t: Target) -> TargetM {
    match t {
        Target::Field(k) => TargetM::Field(k@),
        Target::Ident(s) => TargetM::Ident(opt_view(s)),
    }
}

pub open spec fn mode_model(m: Mode) -> ModeM {
    match m {
        Mode::Top => ModeM::Top,
        Mode::InText(t, buf) => ModeM::InText(target_model(t), buf@),
        Mode::InSkip(d) => ModeM::InSkip(d as int),
    }
}

pub open spec fn st_model(
    in_metadata: bool,
    in_guide: bool,
    mode: Mode,
    metadata: Seq<MetaEntry>,
    unique_identifier_id: Option<String>,
    identifiers: Seq<Identifier>,
    guide: Seq<GuideReference>,
) -> StM {
    StM {
        in_metadata,
        in_guide,
        mode: mode_model(mode),
        doc: DocM {
            metadata: metadata_model(metadata),
            unique_identifier_id: opt_view(unique_identifier_id),
            identifiers: identifiers_model(identifiers),
            guide: guide_model(guide),
        },
    }
}

/// The first attribute with the given key, scanning from position `i`.
pub open spec fn first_attr_from(attrs: Seq<(String, String)>, key: Seq<char>, i: int) -> Option<Seq<char>>
    decreases attrs.len() - i,
{
    if i < 0 || i >= attrs.len() {
        None
    } else if attrs[i].0@ == key {
        Some(attrs[i].1@)
    } else {
        first_attr_from(attrs, key, i + 1)
    }
}

/// The first attribute with the given key.
pub open spec fn first_attr(attrs: Seq<(String, String)>, key: Seq<char>) -> Option<Seq<char>> {
    first_attr_from(attrs, key, 0)
}

/// The last attribute with the given key: a repeated attribute overwrites an
/// earlier one, as an in-order scan of the attribute list does.
pub open spec fn last_attr(attrs: Seq<(String, String)>, key: Seq<char>) -> Option<Seq<char>>
    decreases attrs.len(),
{
    if attrs.len() == 0 {
        None
    } else if attrs.last().0@ == key {
        Some(attrs.last().1@)
    } else {
        last_attr(attrs.drop_last(), key)
    }
}

/// The last attribute carrying either of the two keys. Which of a namespaced
/// and a bare scheme attribute wins when a document supplies both is
/// implementation-defined; here the later one read wins.
pub open spec fn last_attr2(attrs: Seq<(String, String)>, k1: Seq<char>, k2: Seq<char>) -> Option<Seq<char>>
    decreases attrs.len(),
{
    if attrs.len() == 0 {
        None
    } else if attrs.last().0@ == k1 || attrs.last().0@ == k2 {
        Some(attrs.last().1@)
    } else {
        last_attr2(attrs.drop_last(), k1, k2)
    }
}

/// The position of the given key in the metadata mapping, scanning from `i`;
/// -1 if absent.
pub open spec fn find_key_from(md: Seq<(Seq<char>, Seq<Seq<char>>)>, key: Seq<char>, i: int) -> int
    decreases md.len() - i,
{
    if i < 0 || i >= md.len() {
        -1
    } else if md[i].0 == key {
        i
    } else {
        find_key_from(md, key, i + 1)
    }
}

/// The position of the given key in the metadata mapping; -1 if absent.
pub open spec fn find_key(md: Seq<(Seq<char>, Seq<Seq<char>>)>, key: Seq<char>) -> int {
    find_key_from(md, key, 0)
}

/// The metadata mapping with one more value appended under the given key,
/// the entry being created on first use.
pub open spec fn push_value(
    md: Seq<(Seq<char>, Seq<Seq<char>>)>,
    key: Seq<char>,
    v: Seq<char>,
) -> Seq<(Seq<char>, Seq<Seq<char>>)> {
    let i = find_key(md, key);
    if i >= 0 {
        md.update(i, (md[i].0, md[i].1.push(v)))
    } else {
        md.push((key, seq![v]))
    }
}

/// Whether a qualified name carries the Dublin Core prefix.
pub open spec fn is_dc(name: Seq<char>) -> bool {
    name.len() >= 3 && name[0] == 'd' && name[1] == 'c' && name[2] == ':'
}

/// The metadata key of a dc-prefixed name: the local name, case folded.
pub open spec fn dc_key(name: Seq<char>) -> Seq<char> {
    lower(name.skip(3))
}

/// The scheme of an identifier element: the last attribute named either
/// `opf:scheme` or `scheme`.
pub open spec fn scheme_of(tag: Tag) -> Option<Seq<char>> {
    last_attr2(tag.attrs@, "opf:scheme"@, "scheme"@)
}

/// Where the text content of a dc-prefixed element will be committed.
pub open spec fn text_target(tag: Tag) -> TargetM {
    if dc_key(tag.name@) == "identifier"@ {
        TargetM::Ident(scheme_of(tag))
    } else {
        TargetM::Field(dc_key(tag.name@))
    }
}

/// Commits accumulated text content: trimmed, then appended to the metadata
/// mapping or to the identifier collection; the mode returns to top level.
pub open spec fn finish_text(st: StM, tgt: TargetM, buf: Seq<char>) -> StM {
    let v = trim(buf);
    match tgt {
        TargetM::Field(key) => StM {
            mode: ModeM::Top,
            doc: DocM { metadata: push_value(st.doc.metadata, key, v), ..st.doc },
            ..st
        },
        TargetM::Ident(sch) => StM {
            mode: ModeM::Top,
            doc: DocM { identifiers: st.doc.identifiers.push((sch, v)), ..st.doc },
            ..st
        },
    }
}

/// One element inside the metadata section. A dc-prefixed element starts
/// text accumulation (an empty one commits an empty value at once); a `meta`
/// element contributes its `content` under its lowercased `name` only when
/// both attributes are present; any other non-empty element has its whole
/// subtree skipped.
pub open spec fn step_metadata_element(st: StM, tag: Tag, empty: bool) -> StM {
    if is_dc(tag.name@) {
        if empty {
            finish_text(st, text_target(tag), Seq::empty())
        } else {
            StM { mode: ModeM::InText(text_target(tag), Seq::empty()), ..st }
        }
    } else if tag.name@ == "meta"@ {
        match (last_attr(tag.attrs@, "name"@), last_attr(tag.attrs@, "content"@)) {
            (Some(n), Some(c)) => StM {
                doc: DocM { metadata: push_value(st.doc.metadata, lower(n), trim(c)), ..st.doc },
                ..st
            },
            _ => st,
        }
    } else {
        if empty {
            st
        } else {
            StM { mode: ModeM::InSkip(1), ..st }
        }
    }
}

/// One element inside the guide section: only `reference` elements are
/// meaningful; their `type`, `title` and `href` attributes are read off the
/// tag, missing `type` or `href` defaulting to the empty string.
pub open spec fn step_guide_element(st: StM, tag: Tag) -> StM {
    if tag.name@ == "reference"@ {
        let ty = match last_attr(tag.attrs@, "type"@) {
            Some(v) => v,
            None => Seq::empty(),
        };
        let title = last_attr(tag.attrs@, "title"@);
        let href = match last_attr(tag.attrs@, "href"@) {
            Some(v) => v,
            None => Seq::empty(),
        };
        StM { doc: DocM { guide: st.doc.guide.push((ty, title, href)), ..st.doc }, ..st }
    } else {
        st
    }
}

/// Dispatch of one start or empty-element tag at the top level: the root
/// `package` element records its unique-identifier attribute; `metadata` and
/// `guide` open their sections; inside a section the element goes to that
/// section's handler; anything else is ignored.
pub open spec fn step_tag(st: StM, tag: Tag, empty: bool) -> StM {
    if tag.name@ == "package"@ {
        match first_attr(tag.attrs@, "unique-identifier"@) {
            Some(v) => StM {
                doc: DocM { unique_identifier_id: Some(v), ..st.doc },
                ..st
            },
            None => st,
        }
    } else if tag.name@ == "metadata"@ {
        StM { in_metadata: true, ..st }
    } else if tag.name@ == "guide"@ {
        StM { in_guide: true, ..st }
    } else if st.in_metadata {
        step_metadata_element(st, tag, empty)
    } else if st.in_guide {
        step_guide_element(st, tag)
    } else {
        st
    }
}

/// One step of the traversal: how one event transforms the state.
pub open spec fn spec_step(st: StM, ev: XmlEvent) -> StM {
    match st.mode {
        ModeM::InText(tgt, buf) => match ev {
            XmlEvent::Text(t) => StM { mode: ModeM::InText(tgt, buf + t@), ..st },
            XmlEvent::End(_) => finish_text(st, tgt, buf),
            XmlEvent::Eof => finish_text(st, tgt, buf),
            _ => st,
        },
        ModeM::InSkip(d) => match ev {
            XmlEvent::Start(_) => StM { mode: ModeM::InSkip(d + 1), ..st },
            XmlEvent::End(_) => if d <= 1 {
                StM { mode: ModeM::Top, ..st }
            } else {
                StM { mode: ModeM::InSkip(d - 1), ..st }
            },
            XmlEvent::Eof => StM { mode: ModeM::Top, ..st },
            _ => st,
        },
        ModeM::Top => match ev {
            XmlEvent::Start(tag) => step_tag(st, tag, false),
            XmlEvent::Empty(tag) => step_tag(st, tag, true),
            XmlEvent::End(name) => if name@ == "metadata"@ {
                StM { in_metadata: false, ..st }
            } else if name@ == "guide"@ {
                StM { in_guide: false, ..st }
            } else {
                st
            },
            _ => st,
        },
    }
}

/// The initial traversal state: outside every section, empty document.
pub open spec fn init_state() -> StM {
    StM {
        in_metadata: false,
        in_guide: false,
        mode: ModeM::Top,
        doc: DocM {
            metadata: Seq::empty(),
            unique_identifier_id: None,
            identifiers: Seq::empty(),
            guide: Seq::empty(),
        },
    }
}

/// One traversal step, as a function value for folding.
pub open spec fn step_fn() -> spec_fn(StM, XmlEvent) -> StM {
    |st: StM, ev: XmlEvent| spec_step(st, ev)
}

/// The state after traversing an event sequence from a given state.
pub open spec fn run_from(st: StM, evs: Seq<XmlEvent>) -> StM {
    evs.fold_left(st, step_fn())
}

/// The state after traversing a whole event sequence: the fold of the step
/// function from the initial state.
pub open spec fn run_events(evs: Seq<XmlEvent>) -> StM {
    run_from(init_state(), evs)
}

/// The document extracted from an event sequence.
pub open spec fn spec_extract(evs: Seq<XmlEvent>) -> DocM {
    run_events(evs).doc
}

/// The href of the first guide entry of type "cover" (case-insensitively),
/// scanning from position `i`.
pub open spec fn cover_from(
    gd: Seq<(Seq<char>, Option<Seq<char>>, Seq<char>)>,
    i: int,
) -> Option<Seq<char>>
    decreases gd.len() - i,
{
    if i < 0 || i >= gd.len() {
        None
    } else if lower(gd[i].0) == "cover"@ {
        Some(gd[i].2)
    } else {
        cover_from(gd, i + 1)
    }
}

/// Unfolds the traversal by one event.
proof fn lemma_run_step(evs: Seq<XmlEvent>, i: int)
    requires
        0 <= i < evs.len(),
    ensures
        run_events(evs.take(i + 1)) == spec_step(run_events(evs.take(i)), evs[i]),
{
    assert(evs.take(i + 1).drop_last() =~= evs.take(i));
    assert(evs.take(i + 1).last() == evs[i]);
}

fn find_first_attr(attrs: &Vec<(String, String)>, key: &str) -> (r: Option<String>)
    ensures
        opt_view(r) == first_attr(attrs@, key@),
{
    let n = attrs.len();
    let mut i: usize = 0;
    while i < n
        invariant
            i <= n,
            n == attrs@.len(),
            first_attr(attrs@, key@) == first_attr_from(attrs@, key@, i as int),
        decreases n - i,
    {
        if str_eq(attrs[i].0.as_str(), key) {
            return Some(attrs[i].1.clone());
        }
        i += 1;
    }
    None
}

fn find_last_attr(attrs: &Vec<(String, String)>, key: &str) -> (r: Option<String>)
    ensures
        opt_view(r) == last_attr(attrs@, key@),
{
    let mut r: Option<String> = None;
    let n = attrs.len();
    let mut i: usize = 0;
    while i < n
        invariant
            i <= n,
            n == attrs@.len(),
            opt_view(r) == last_attr(attrs@.take(i as int), key@),
        decreases n - i,
    {
        proof {
            assert(attrs@.take(i + 1).drop_last() =~= attrs@.take(i as int));
        }
        if str_eq(attrs[i].0.as_str(), key) {
            r = Some(attrs[i].1.clone());
        }
        i += 1;
    }
    proof {
        assert(attrs@.take(n as int) =~= attrs@);
    }
    r
}

fn find_scheme(attrs: &Vec<(String, String)>) -> (r: Option<String>)
    ensures
        opt_view(r) == last_attr2(attrs@, "opf:scheme"@, "scheme"@),
{
    let mut r: Option<String> = None;
    let n = attrs.len();
    let mut i: usize = 0;
    while i < n
        invariant
            i <= n,
            n == attrs@.len(),
            opt_view(r) == last_attr2(attrs@.take(i as int), "opf:scheme"@, "scheme"@),
        decreases n - i,
    {
        proof {
            assert(attrs@.take(i + 1).drop_last() =~= attrs@.take(i as int));
        }
        if str_eq(attrs[i].0.as_str(), "opf:scheme") || str_eq(attrs[i].0.as_str(), "scheme") {
            r = Some(attrs[i].1.clone());
        }
        i += 1;
    }
    proof {
        assert(attrs@.take(n as int) =~= attrs@);
    }
    r
}

/// Appends one value under the given key, creating the entry on first use.
fn push_metadata_value(metadata: &mut Vec<MetaEntry>, key: String, value: String)
    ensures
        metadata_model(final(metadata)@) == push_value(metadata_model(old(metadata)@), key@, value@),
{
    let ghost m0 = metadata_model(old(metadata)@);
    let n = metadata.len();
    let mut i: usize = 0;
    while i < n
        invariant
            i <= n,
            n == metadata@.len(),
            metadata@ == old(metadata)@,
            find_key(m0, key@) == find_key_from(m0, key@, i as int),
            m0 == metadata_model(metadata@),
        decreases n - i,
    {
        if str_eq(metadata[i].key.as_str(), key.as_str()) {
            let mut e = metadata.remove(i);
            e.values.push(value);
            metadata.insert(i, e);
            proof {
                assert(find_key(m0, key@) == i as int);
                assert(metadata@ =~= old(metadata)@.update(i as int, metadata@[i as int]));
                assert(metadata_model(metadata@) =~~= push_value(m0, key@, value@));
            }
            return;
        }
        i += 1;
    }
    let mut vs: Vec<String> = Vec::new();
    vs.push(value);
    metadata.push(MetaEntry { key, values: vs });
    proof {
        assert(find_key(m0, key@) == -1);
        assert(metadata_model(metadata@) =~~= push_value(m0, key@, value@));
    }
}

/// Commits accumulated text content to its target, trimmed.
fn store_text_value(
    target: Target,
    buf: String,
    metadata: &mut Vec<MetaEntry>,
    identifiers: &mut Vec<Identifier>,
)
    ensures
        match target_model(target) {
            TargetM::Field(k) => metadata_model(final(metadata)@) == push_value(
                metadata_model(old(metadata)@),
                k,
                trim(buf@),
            ) && final(identifiers)@ == old(identifiers)@,
            TargetM::Ident(sch) => identifiers_model(final(identifiers)@) == identifiers_model(
                old(identifiers)@,
            ).push((sch, trim(buf@))) && final(metadata)@ == old(metadata)@,
        },
{
    let v = trim_str(buf.as_str());
    match target {
        Target::Field(k) => {
            push_metadata_value(metadata, k, v);
        },
        Target::Ident(scheme) => {
            let ghost sch = opt_view(scheme);
            identifiers.push(Identifier { scheme, value: v });
            proof {
                assert(identifiers_model(identifiers@) =~~= identifiers_model(old(identifiers)@).push(
                    (sch, trim(buf@)),
                ));
            }
        },
    }
}

/// Handles one element inside the metadata section, as the metadata element
/// handler of the traversal specification does.
fn parse_metadata_element(
    tag: &Tag,
    empty: bool,
    metadata: &mut Vec<MetaEntry>,
    identifiers: &mut Vec<Identifier>,
    Ghost(st0): Ghost<StM>,
) -> (m: Mode)
    requires
        st0.mode == ModeM::Top,
        st0.doc.metadata == metadata_model(old(metadata)@),
        st0.doc.identifiers == identifiers_model(old(identifiers)@),
    ensures
        ({
            let st1 = step_metadata_element(st0, *tag, empty);
            &&& st1.mode == mode_model(m)
            &&& st1.doc.metadata == metadata_model(final(metadata)@)
            &&& st1.doc.identifiers == identifiers_model(final(identifiers)@)
            &&& st1.in_metadata == st0.in_metadata
            &&& st1.in_guide == st0.in_guide
            &&& st1.doc.unique_identifier_id == st0.doc.unique_identifier_id
            &&& st1.doc.guide == st0.doc.guide
        }),
{
    let name = tag.name.as_str();
    let name_len = name.unicode_len();
    let dc = name_len >= 3 && name.get_char(0) == 'd' && name.get_char(1) == 'c'
        && name.get_char(2) == ':';
    proof {
        assert(dc == is_dc(tag.name@));
    }
    if dc {
        let local = name.substring_char(3, name_len);
        let key = to_lower(local);
        proof {
            assert(tag.name@.skip(3) =~= tag.name@.subrange(3, name_len as int));
            assert(key@ == dc_key(tag.name@));
        }
        let is_ident = str_eq(key.as_str(), "identifier");
        let target = if is_ident {
            Target::Ident(find_scheme(&tag.attrs))
        } else {
            Target::Field(key)
        };
        proof {
            assert(target_model(target) == text_target(*tag));
        }
        if empty {
            store_text_value(target, String::new(), metadata, identifiers);
            Mode::Top
        } else {
            Mode::InText(target, String::new())
        }
    } else if str_eq(name, "meta") {
        let n_attr = find_last_attr(&tag.attrs, "name");
        let c_attr = find_last_attr(&tag.attrs, "content");
        match (n_attr, c_attr) {
            (Some(nv), Some(cv)) => {
                let k = to_lower(nv.as_str());
                let v = trim_str(cv.as_str());
                push_metadata_value(metadata, k, v);
            },
            _ => {},
        }
        Mode::Top
    } else {
        if empty {
            Mode::Top
        } else {
            Mode::InSkip(1)
        }
    }
}

/// Handles one element inside the guide section, as the guide element
/// handler of the traversal specification does.
fn parse_guide_element(tag: &Tag, guide: &mut Vec<GuideReference>, Ghost(st0): Ghost<StM>)
    requires
        st0.doc.guide == guide_model(old(guide)@),
    ensures
        ({
            let st1 = step_guide_element(st0, *tag);
            &&& st1.doc.guide == guide_model(final(guide)@)
            &&& st1.mode == st0.mode
            &&& st1.in_metadata == st0.in_metadata
            &&& st1.in_guide == st0.in_guide
            &&& st1.doc.metadata == st0.doc.metadata
            &&& st1.doc.identifiers == st0.doc.identifiers
            &&& st1.doc.unique_identifier_id == st0.doc.unique_identifier_id
        }),
{
    if str_eq(tag.name.as_str(), "reference") {
        let ty = match find_last_attr(&tag.attrs, "type") {
            Some(v) => v,
            None => String::new(),
        };
        let title = find_last_attr(&tag.attrs, "title");
        let href = match find_last_attr(&tag.attrs, "href") {
            Some(v) => v,
            None => String::new(),
        };
        let ghost entry = (ty@, opt_view(title), href@);
        guide.push(GuideReference { ref_type: ty, title, href });
        proof {
            assert(guide_model(guide@) =~~= guide_model(old(guide)@).push(entry));
        }
    }
}

/// One event while accumulating the text content of a recognized metadata
/// element: text events are appended, and the first end tag — or the end of
/// the stream — commits the trimmed content and returns to top level.
fn read_text_content(
    target: Target,
    buf: String,
    ev: &XmlEvent,
    metadata: &mut Vec<MetaEntry>,
    identifiers: &mut Vec<Identifier>,
    Ghost(st0): Ghost<StM>,
) -> (m: Mode)
    requires
        st0.mode == ModeM::InText(target_model(target), buf@),
        st0.doc.metadata == metadata_model(old(metadata)@),
        st0.doc.identifiers == identifiers_model(old(identifiers)@),
    ensures
        ({
            let st1 = spec_step(st0, *ev);
            &&& st1.mode == mode_model(m)
            &&& st1.doc.metadata == metadata_model(final(metadata)@)
            &&& st1.doc.identifiers == identifiers_model(final(identifiers)@)
            &&& st1.in_metadata == st0.in_metadata
            &&& st1.in_guide == st0.in_guide
            &&& st1.doc.unique_identifier_id == st0.doc.unique_identifier_id
            &&& st1.doc.guide == st0.doc.guide
        }),
{
    match ev {
        XmlEvent::Text(t) => {
            let mut b = buf;
            b.append(t.as_str());
            Mode::InText(target, b)
        },
        XmlEvent::End(_) => {
            store_text_value(target, buf, metadata, identifiers);
            Mode::Top
        },
        XmlEvent::Eof => {
            store_text_value(target, buf, metadata, identifiers);
            Mode::Top
        },
        _ => Mode::InText(target, buf),
    }
}

/// One event while skipping the subtree of an unrecognized element: an
/// explicit depth counter, incremented on nested start tags and decremented
/// on end tags, with top level regained at depth zero or at end of stream.
/// This discards unrelated children without a tree representation.
fn skip_element(depth: usize, ev: &XmlEvent, Ghost(st0): Ghost<StM>) -> (m: Mode)
    requires
        st0.mode == ModeM::InSkip(depth as int),
        1 <= depth < usize::MAX,
    ensures
        ({
            let st1 = spec_step(st0, *ev);
            &&& st1.mode == mode_model(m)
            &&& st1.doc == st0.doc
            &&& st1.in_metadata == st0.in_metadata
            &&& st1.in_guide == st0.in_guide
        }),
{
    match ev {
        XmlEvent::Start(_) => Mode::InSkip(depth + 1),
        XmlEvent::End(_) => if depth <= 1 {
            Mode::Top
        } else {
            Mode::InSkip(depth - 1)
        },
        XmlEvent::Eof => Mode::Top,
        _ => Mode::InSkip(depth),
    }
}

/// Dispatch of one start or empty-element tag at the top level.
fn dispatch_element(
    tag: &Tag,
    empty: bool,
    in_metadata: &mut bool,
    in_guide: &mut bool,
    metadata: &mut Vec<MetaEntry>,
    unique_identifier_id: &mut Option<String>,
    identifiers: &mut Vec<Identifier>,
    guide: &mut Vec<GuideReference>,
) -> (m: Mode)
    ensures
        st_model(
            *final(in_metadata),
            *final(in_guide),
            m,
            final(metadata)@,
            *final(unique_identifier_id),
            final(identifiers)@,
            final(guide)@,
        ) == step_tag(
            st_model(
                *old(in_metadata),
                *old(in_guide),
                Mode::Top,
                old(metadata)@,
                *old(unique_identifier_id),
                old(identifiers)@,
                old(guide)@,
            ),
            *tag,
            empty,
        ),
{
    let ghost st0 = st_model(
        *in_metadata,
        *in_guide,
        Mode::Top,
        metadata@,
        *unique_identifier_id,
        identifiers@,
        guide@,
    );
    if str_eq(tag.name.as_str(), "package") {
        match find_first_attr(&tag.attrs, "unique-identifier") {
            Some(v) => {
                *unique_identifier_id = Some(v);
            },
            None => {},
        }
        Mode::Top
    } else if str_eq(tag.name.as_str(), "metadata") {
        *in_metadata = true;
        Mode::Top
    } else if str_eq(tag.name.as_str(), "guide") {
        *in_guide = true;
        Mode::Top
    } else if *in_metadata {
        parse_metadata_element(tag, empty, metadata, identifiers, Ghost(st0))
    } else if *in_guide {
        parse_guide_element(tag, guide, Ghost(st0));
        Mode::Top
    } else {
        Mode::Top
    }
}

impl OpfDoc {
    /// Builds the document model that the traversal specification assigns to
    /// this event sequence: the single forward pass over the events.
    pub fn extract_events(events: &Vec<XmlEvent>, file_path: String) -> (doc: OpfDoc)
        ensures
            doc.model() == spec_extract(events@),
            doc.file_path@ == file_path@,
    {
        let mut in_metadata = false;
        let mut in_guide = false;
        let mut mode = Mode::Top;
        let mut metadata: Vec<MetaEntry> = Vec::new();
        let mut unique_identifier_id: Option<String> = None;
        let mut identifiers: Vec<Identifier> = Vec::new();
        let mut guide: Vec<GuideReference> = Vec::new();
        let n = events.len();
        let mut i: usize = 0;
        proof {
            assert(events@.take(0) =~= Seq::<XmlEvent>::empty());
            assert(metadata_model(metadata@) =~= Seq::<(Seq<char>, Seq<Seq<char>>)>::empty());
            assert(identifiers_model(identifiers@) =~= Seq::<(Option<Seq<char>>, Seq<char>)>::empty());
            assert(guide_model(guide@) =~= Seq::<(Seq<char>, Option<Seq<char>>, Seq<char>)>::empty());
        }
        while i < n
            invariant
                i <= n,
                n == events@.len(),
                st_model(
                    in_metadata,
                    in_guide,
                    mode,
                    metadata@,
                    unique_identifier_id,
                    identifiers@,
                    guide@,
                ) == run_events(events@.take(i as int)),
                mode matches Mode::InSkip(d) ==> 1 <= d <= i,
            decreases n - i,
        {
            let ghost st_pre = st_model(
                in_metadata,
                in_guide,
                mode,
                metadata@,
                unique_identifier_id,
                identifiers@,
                guide@,
            );
            proof {
                lemma_run_step(events@, i as int);
            }
            let ev = &events[i];
            mode = match mode {
                Mode::Top => match ev {
                    XmlEvent::Start(tag) => dispatch_element(
                        tag,
                        false,
                        &mut in_metadata,
                        &mut in_guide,
                        &mut metadata,
                        &mut unique_identifier_id,
                        &mut identifiers,
                        &mut guide,
                    ),
                    XmlEvent::Empty(tag) => dispatch_element(
                        tag,
                        true,
                        &mut in_metadata,
                        &mut in_guide,
                        &mut metadata,
                        &mut unique_identifier_id,
                        &mut identifiers,
                        &mut guide,
                    ),
                    XmlEvent::End(name) => {
                        if str_eq(name.as_str(), "metadata") {
                            in_metadata = false;
                        } else if str_eq(name.as_str(), "guide") {
                            in_guide = false;
                        }
                        Mode::Top
                    },
                    _ => Mode::Top,
                },
                Mode::InText(target, buf) => read_text_content(
                    target,
                    buf,
                    ev,
                    &mut metadata,
                    &mut identifiers,
                    Ghost(st_pre),
                ),
                Mode::InSkip(d) => skip_element(d, ev, Ghost(st_pre)),
            };
            proof {
                assert(st_model(
                    in_metadata,
                    in_guide,
                    mode,
                    metadata@,
                    unique_identifier_id,
                    identifiers@,
                    guide@,
                ) == spec_step(st_pre, events@[i as int]));
            }
            i += 1;
        }
        proof {
            assert(events@.take(n as int) =~= events@);
        }
        OpfDoc { metadata, unique_identifier_id, identifiers, guide, file_path }
    }

    /// The stored values of a key: case-insensitive lookup in the metadata
    /// mapping, absent when the key was never populated.
    pub open spec fn spec_mdata_all(&self, key: Seq<char>) -> Option<Seq<Seq<char>>> {
        let m = self.model().metadata;
        let i = find_key(m, lower(key));
        if i >= 0 {
            Some(m[i].1)
        } else {
            None
        }
    }

    /// The first stored value of a key, absent when the key was never
    /// populated.
    pub open spec fn spec_mdata(&self, key: Seq<char>) -> Option<Seq<char>> {
        match self.spec_mdata_all(key) {
            Some(vs) => if vs.len() > 0 {
                Some(vs[0])
            } else {
                None
            },
            None => None,
        }
    }

    /// The href of the first guide reference whose type is "cover",
    /// case-insensitively.
    pub open spec fn spec_cover_href(&self) -> Option<Seq<char>> {
        cover_from(self.model().guide, 0)
    }

    /// Case-insensitive lookup of the first stored value of a key.
    pub fn mdata(&self, key: &str) -> (r: Option<String>)
        ensures
            opt_view(r) == self.spec_mdata(key@),
    {
        let k = to_lower(key);
        let ghost m = metadata_model(self.metadata@);
        let n = self.metadata.len();
        let mut i: usize = 0;
        while i < n
            invariant
                i <= n,
                n == self.metadata@.len(),
                k@ == lower(key@),
                m == metadata_model(self.metadata@),
                find_key(m, lower(key@)) == find_key_from(m, lower(key@), i as int),
            decreases n - i,
        {
            if str_eq(self.metadata[i].key.as_str(), k.as_str()) {
                if self.metadata[i].values.len() > 0 {
                    return Some(self.metadata[i].values[0].clone());
                } else {
                    return None;
                }
            }
            i += 1;
        }
        None
    }

    /// Case-insensitive lookup of all stored values of a key, in document
    /// order.
    pub fn mdata_all(&self, key: &str) -> (r: Option<&Vec<String>>)
        ensures
            match r {
                Some(v) => self.spec_mdata_all(key@) == Some(v@.map_values(|s: String| s@)),
                None => self.spec_mdata_all(key@) is None,
            },
    {
        let k = to_lower(key);
        let ghost m = metadata_model(self.metadata@);
        let n = self.metadata.len();
        let mut i: usize = 0;
        while i < n
            invariant
                i <= n,
                n == self.metadata@.len(),
                k@ == lower(key@),
                m == metadata_model(self.metadata@),
                find_key(m, lower(key@)) == find_key_from(m, lower(key@), i as int),
            decreases n - i,
        {
            if str_eq(self.metadata[i].key.as_str(), k.as_str()) {
                return Some(&self.metadata[i].values);
            }
            i += 1;
        }
        None
    }

    /// The href of the first guide reference of type "cover", regardless of
    /// the case that type was written in.
    pub fn cover_href(&self) -> (r: Option<String>)
        ensures
            opt_view(r) == self.spec_cover_href(),
    {
        let ghost gd = guide_model(self.guide@);
        let n = self.guide.len();
        let mut i: usize = 0;
        while i < n
            invariant
                i <= n,
                n == self.guide@.len(),
                gd == guide_model(self.guide@),
                cover_from(gd, 0) == cover_from(gd, i as int),
            decreases n - i,
        {
            let ty = to_lower(self.guide[i].ref_type.as_str());
            if str_eq(ty.as_str(), "cover") {
                return Some(self.guide[i].href.clone());
            }
            i += 1;
        }
        None
    }

    /// Parses a whole document given as bytes: tokenizes it and runs the
    /// extraction pass. It succeeds exactly when the token stream of the
    /// bytes ends cleanly, with the document the extraction specification
    /// assigns to that stream, and it fails exactly with the stream's own
    /// error (malformed markup, a malformed attribute, non-UTF-8 text). A
    /// well-formed document that is merely missing expected elements yields
    /// a model with absent or empty fields, never an error.
    pub fn from_bytes(bytes: &[u8], file_path: String) -> (r: Result<OpfDoc, OpfParseError>)
        ensures
            match r {
                Ok(doc) => events_of(bytes@).1 is None && doc.model() == spec_extract(
                    events_of(bytes@).0,
                ) && doc.file_path@ == file_path@ && crate::models::doc_wf(doc.model()),
                Err(e) => events_of(bytes@).1 == Some(e),
            },
    {
        match tokenize(bytes) {
            Ok(events) => {
                let doc = OpfDoc::extract_events(&events, file_path);
                proof {
                    assert(doc.model() == spec_extract(events@));
                    crate::laws::lemma_extract_wf(events@);
                }
                Ok(doc)
            },
            Err(e) => Err(e),
        }
    }
}

} // verus!
