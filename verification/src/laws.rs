//! Laws of the library, stated and proved over the same specification
//! functions the executable contracts use.

use vstd::prelude::*;
use crate::adapter::{clean_parts, split_semi, split_step, subject_parts, subjects_of_values};
use crate::models::{DocM, OpfDoc, doc_wf};
use crate::parser::{ModeM, StM, TargetM, find_key, find_key_from, init_state, is_dc, push_value,
    run_events, run_from, spec_extract, spec_step, step_fn, step_tag, text_target};
use crate::xml::events_of;
use crate::text::{lower, lower_char, trim};
use crate::xml::{Tag, XmlEvent};

verus! {

/// The values joined with ';' separators, as one text.
pub open spec fn join_semi(values: Seq<Seq<char>>) -> Seq<char>
    decreases values.len(),
{
    if values.len() == 0 {
        Seq::empty()
    } else if values.len() == 1 {
        values[0]
    } else {
        join_semi(values.drop_last()) + seq![';'] + values.last()
    }
}

proof fn lemma_split_fold_nonempty(s: Seq<char>, acc: Seq<Seq<char>>)
    requires
        acc.len() > 0,
    ensures
        s.fold_left(acc, split_step()).len() > 0,
    decreases s.len(),
{
    if s.len() > 0 {
        lemma_split_fold_nonempty(s.drop_last(), acc);
    }
}

/// Splitting only ever touches the last accumulated part: folding from a
/// longer accumulator carries its front through unchanged.
proof fn lemma_split_fold_front(s: Seq<char>, acc: Seq<Seq<char>>)
    requires
        acc.len() > 0,
    ensures
        s.fold_left(acc, split_step()) == acc.drop_last() + s.fold_left(
            seq![acc.last()],
            split_step(),
        ),
    decreases s.len(),
{
    let f = split_step();
    if s.len() == 0 {
        assert(acc.drop_last() + seq![acc.last()] =~= acc);
    } else {
        lemma_split_fold_front(s.drop_last(), acc);
        let g = s.drop_last().fold_left(seq![acc.last()], f);
        lemma_split_fold_nonempty(s.drop_last(), seq![acc.last()]);
        if s.last() == ';' {
            assert((acc.drop_last() + g).push(Seq::<char>::empty()) =~= acc.drop_last() + g.push(
                Seq::<char>::empty(),
            ));
        } else {
            assert((acc.drop_last() + g).update(
                (acc.drop_last() + g).len() - 1,
                (acc.drop_last() + g).last().push(s.last()),
            ) =~= acc.drop_last() + g.update(g.len() - 1, g.last().push(s.last())));
        }
    }
}

/// Splitting a text around a ';' splits each side independently.
proof fn lemma_split_concat(a: Seq<char>, b: Seq<char>)
    ensures
        split_semi(a + seq![';'] + b) == split_semi(a) + split_semi(b),
{
    let f = split_step();
    let s = a + seq![';'] + b;
    let init = seq![Seq::<char>::empty()];
    assert(s.subrange(0, a.len() as int) =~= a);
    assert(s.subrange(a.len() as int, s.len() as int) =~= seq![';'] + b);
    s.lemma_fold_left_split(init, f, a.len() as int);
    let mid = seq![';'] + b;
    let acc1 = a.fold_left(init, f);
    assert(mid.subrange(0, 1) =~= seq![';']);
    assert(mid.subrange(1, mid.len() as int) =~= b);
    mid.lemma_fold_left_split(acc1, f, 1);
    assert(seq![';'].drop_last() =~= Seq::<char>::empty());
    assert(seq![';'].drop_last().fold_left(acc1, f) == acc1);
    assert(seq![';'].last() == ';');
    assert(seq![';'].fold_left(acc1, f) == acc1.push(Seq::<char>::empty()));
    lemma_split_fold_nonempty(a, init);
    lemma_split_fold_front(b, acc1.push(Seq::<char>::empty()));
    assert(acc1.push(Seq::<char>::empty()).drop_last() =~= acc1);
    assert(split_semi(a + seq![';'] + b) == acc1 + b.fold_left(seq![Seq::<char>::empty()], f));
}

/// Cleaning parts distributes over concatenation.
proof fn lemma_clean_concat(p: Seq<Seq<char>>, q: Seq<Seq<char>>)
    ensures
        clean_parts(p + q) == clean_parts(p) + clean_parts(q),
    decreases q.len(),
{
    if q.len() == 0 {
        assert(p + q =~= p);
        assert(clean_parts(p) + clean_parts(q) =~= clean_parts(p));
    } else {
        lemma_clean_concat(p, q.drop_last());
        assert((p + q).drop_last() =~= p + q.drop_last());
        assert((p + q).last() == q.last());
        if crate::text::trim(q.last()).len() > 0 {
            assert(clean_parts(p) + clean_parts(q) =~= (clean_parts(p) + clean_parts(
                q.drop_last(),
            )).push(crate::text::trim(q.last())));
        } else {
            assert(clean_parts(p) + clean_parts(q) =~= clean_parts(p) + clean_parts(q.drop_last()));
        }
    }
}

/// For any list of stored subject values, the subjects they contribute are
/// exactly the non-empty trimmed parts of the whole semicolon-joined text,
/// in order: splitting value by value and splitting the joined text agree.
pub proof fn lemma_subjects_join(values: Seq<Seq<char>>)
    ensures
        subjects_of_values(values) == subject_parts(join_semi(values)),
    decreases values.len(),
{
    if values.len() == 0 {
        assert(Seq::<char>::empty().fold_left(seq![Seq::<char>::empty()], split_step())
            == seq![Seq::<char>::empty()]);
        assert(split_semi(join_semi(values)) == seq![Seq::<char>::empty()]);
        assert(seq![Seq::<char>::empty()].drop_last() =~= Seq::<Seq<char>>::empty());
        assert(clean_parts(seq![Seq::<char>::empty()].drop_last()) =~= Seq::<Seq<char>>::empty());
        assert(crate::text::trim(Seq::<char>::empty()).len() == 0);
        assert(clean_parts(seq![Seq::<char>::empty()]) =~= Seq::<Seq<char>>::empty());
        assert(subjects_of_values(values) =~= subject_parts(join_semi(values)));
    } else if values.len() == 1 {
        assert(values.drop_last().len() == 0);
        assert(subjects_of_values(values.drop_last()) =~= Seq::<Seq<char>>::empty());
        assert(values.last() == values[0]);
        assert(join_semi(values) == values[0]);
        assert(subjects_of_values(values) =~= subject_parts(values[0]));
    } else {
        lemma_subjects_join(values.drop_last());
        lemma_split_concat(join_semi(values.drop_last()), values.last());
        lemma_clean_concat(
            split_semi(join_semi(values.drop_last())),
            split_semi(values.last()),
        );
        assert(subjects_of_values(values) =~= subject_parts(join_semi(values)));
    }
}

/// Metadata lookup is case-insensitive: a key in any case finds what its
/// lowercased form finds.
pub proof fn lemma_mdata_case_insensitive(doc: OpfDoc, key: Seq<char>)
    ensures
        doc.spec_mdata(key) == doc.spec_mdata(lower(key)),
        doc.spec_mdata_all(key) == doc.spec_mdata_all(lower(key)),
{
    assert(lower(lower(key)) =~= lower(key));
}

/// Case folding is idempotent.
proof fn lemma_lower_idempotent(s: Seq<char>)
    ensures
        lower(lower(s)) == lower(s),
{
    assert(forall|c: char| lower_char(#[trigger] lower_char(c)) == lower_char(c));
    assert(lower(lower(s)) =~= lower(s));
}

/// What a key scan finds: nothing only when no entry from `i` on carries the
/// key, and otherwise the first entry that does.
proof fn lemma_find_key_props(md: Seq<(Seq<char>, Seq<Seq<char>>)>, key: Seq<char>, i: int)
    requires
        0 <= i <= md.len(),
    ensures
        find_key_from(md, key, i) >= -1,
        find_key_from(md, key, i) == -1 ==> forall|j: int|
            i <= j < md.len() ==> (#[trigger] md[j]).0 != key,
        find_key_from(md, key, i) >= 0 ==> i <= find_key_from(md, key, i) < md.len()
            && md[find_key_from(md, key, i)].0 == key,
    decreases md.len() - i,
{
    if i < md.len() && md[i].0 != key {
        lemma_find_key_props(md, key, i + 1);
    }
}

/// The traversal invariant: the accumulated document is well formed and any
/// pending text target key is already lowercased.
pub open spec fn st_wf(st: StM) -> bool {
    &&& doc_wf(st.doc)
    &&& match st.mode {
        ModeM::InText(TargetM::Field(k), _) => k == lower(k),
        _ => true,
    }
}

/// Appending a value under a lowercased key preserves the mapping
/// invariant.
proof fn lemma_push_value_wf(d: DocM, key: Seq<char>, v: Seq<char>)
    requires
        doc_wf(d),
        key == lower(key),
    ensures
        doc_wf(DocM { metadata: push_value(d.metadata, key, v), ..d }),
{
    let m = d.metadata;
    let i = find_key(m, key);
    lemma_find_key_props(m, key, 0);
    let m2 = push_value(m, key, v);
    if i >= 0 {
        assert(m2.len() == m.len());
        assert(forall|j: int| 0 <= j < m2.len() && j != i ==> m2[j] == m[j]);
        assert(m2[i].0 == m[i].0);
        assert(m2[i].1.len() == m[i].1.len() + 1);
    } else {
        assert(m2.len() == m.len() + 1);
        assert(forall|j: int| 0 <= j < m.len() ==> m2[j] == m[j]);
        assert(m2[m.len() as int].0 == key);
        assert(m2[m.len() as int].1 =~= seq![v]);
        assert(m2[m.len() as int].1.len() == 1);
    }
    assert(forall|j: int| 0 <= j < m2.len() ==> (#[trigger] m2[j]).1.len() > 0);
    assert(forall|j: int| 0 <= j < m2.len() ==> (#[trigger] m2[j]).0 == lower(m2[j].0));
    assert forall|j: int, l: int|
        0 <= j < l < m2.len() implies (#[trigger] m2[j]).0 != (#[trigger] m2[l]).0 by {
        if i < 0 && l == m.len() {
            assert(m2[j].0 == m[j].0);
            assert(m[j].0 != key);
        } else {
            assert(m2[j].0 == m[j].0);
            assert(m2[l].0 == m[l].0);
        }
    }
}

proof fn lemma_step_tag_wf(st: StM, tag: Tag, empty: bool)
    requires
        st_wf(st),
        st.mode is Top,
    ensures
        st_wf(step_tag(st, tag, empty)),
{
    if tag.name@ == "package"@ || tag.name@ == "metadata"@ || tag.name@ == "guide"@ {
    } else if st.in_metadata {
        if crate::parser::is_dc(tag.name@) {
            lemma_lower_idempotent(tag.name@.skip(3));
            if empty {
                match text_target(tag) {
                    TargetM::Field(k) => {
                        lemma_push_value_wf(st.doc, k, trim(Seq::empty()));
                    },
                    TargetM::Ident(_) => {},
                }
            }
        } else if tag.name@ == "meta"@ {
            match crate::parser::last_attr(tag.attrs@, "name"@) {
                Some(n) => {
                    lemma_lower_idempotent(n);
                    match crate::parser::last_attr(tag.attrs@, "content"@) {
                        Some(c) => {
                            lemma_push_value_wf(st.doc, lower(n), trim(c));
                        },
                        None => {},
                    }
                },
                None => {},
            }
        }
    }
}

proof fn lemma_step_wf(st: StM, ev: XmlEvent)
    requires
        st_wf(st),
    ensures
        st_wf(spec_step(st, ev)),
{
    match st.mode {
        ModeM::InText(tgt, buf) => match ev {
            XmlEvent::End(_) | XmlEvent::Eof => match tgt {
                TargetM::Field(k) => {
                    lemma_push_value_wf(st.doc, k, trim(buf));
                },
                TargetM::Ident(_) => {},
            },
            _ => {},
        },
        ModeM::InSkip(_) => {},
        ModeM::Top => match ev {
            XmlEvent::Start(tag) => lemma_step_tag_wf(st, tag, false),
            XmlEvent::Empty(tag) => lemma_step_tag_wf(st, tag, true),
            _ => {},
        },
    }
}

proof fn lemma_run_wf(evs: Seq<XmlEvent>)
    ensures
        st_wf(run_events(evs)),
    decreases evs.len(),
{
    if evs.len() == 0 {
        assert(run_events(evs) == init_state());
    } else {
        lemma_run_wf(evs.drop_last());
        assert(run_events(evs) == spec_step(run_events(evs.drop_last()), evs.last()));
        lemma_step_wf(run_events(evs.drop_last()), evs.last());
    }
}

/// Every extracted document model is well formed: metadata keys are
/// normalized to lower case, no key repeats, and a key is only present with
/// at least one value — an entry is created only when a value is pushed.
pub proof fn lemma_extract_wf(evs: Seq<XmlEvent>)
    ensures
        doc_wf(spec_extract(evs)),
{
    lemma_run_wf(evs);
}

/// Extraction is deterministic: one event stream yields one document model,
/// so re-parsing the same document yields field-by-field identical models.
pub proof fn lemma_extract_deterministic(evs: Seq<XmlEvent>, d1: DocM, d2: DocM)
    requires
        d1 == spec_extract(evs),
        d2 == spec_extract(evs),
    ensures
        d1 == d2,
        d1.metadata == d2.metadata,
        d1.unique_identifier_id == d2.unique_identifier_id,
        d1.identifiers == d2.identifiers,
        d1.guide == d2.guide,
{
}

/// Parsing is deterministic from the bytes: two successful parses of one
/// byte sequence yield field-by-field identical document models.
pub proof fn lemma_reparse_deterministic(bytes: Seq<u8>, d1: DocM, d2: DocM)
    requires
        d1 == spec_extract(events_of(bytes).0),
        d2 == spec_extract(events_of(bytes).0),
    ensures
        d1 == d2,
        d1.metadata == d2.metadata,
        d1.unique_identifier_id == d2.unique_identifier_id,
        d1.identifiers == d2.identifiers,
        d1.guide == d2.guide,
{
}

/// The nesting balance of an event slice: start tags opened minus end tags
/// closed.
pub open spec fn excess(evs: Seq<XmlEvent>) -> int
    decreases evs.len(),
{
    if evs.len() == 0 {
        0
    } else {
        excess(evs.drop_last()) + match evs.last() {
            XmlEvent::Start(_) => 1,
            XmlEvent::End(_) => -1,
            _ => 0,
        }
    }
}

/// Skipping is inert: while every prefix keeps the depth positive, events
/// leave the document and the section flags untouched and the depth follows
/// the nesting balance.
proof fn lemma_skip_run(st: StM, evs: Seq<XmlEvent>, d: int)
    requires
        st.mode == ModeM::InSkip(d),
        d >= 1,
        forall|k: int| 0 <= k <= evs.len() ==> d + excess(#[trigger] evs.take(k)) >= 1,
        forall|j: int| 0 <= j < evs.len() ==> !((#[trigger] evs[j]) is Eof),
    ensures
        run_from(st, evs).doc == st.doc,
        run_from(st, evs).in_metadata == st.in_metadata,
        run_from(st, evs).in_guide == st.in_guide,
        run_from(st, evs).mode == ModeM::InSkip(d + excess(evs)),
    decreases evs.len(),
{
    if evs.len() == 0 {
    } else {
        let pre = evs.drop_last();
        assert forall|k: int| 0 <= k <= pre.len() implies d + excess(#[trigger] pre.take(k))
            >= 1 by {
            assert(pre.take(k) =~= evs.take(k));
        }
        lemma_skip_run(st, pre, d);
        assert(pre =~= evs.take(evs.len() - 1));
        assert(d + excess(pre) >= 1);
        assert(evs.take(evs.len() as int) =~= evs);
        assert(d + excess(evs) >= 1);
    }
}

/// An unrecognized element inside the metadata section — neither dc-prefixed
/// nor `meta`, and not one of the structural names — has its entire subtree
/// skipped: the traversal reaches exactly the state it reaches without the
/// element, so nothing of the element or its children enters the document
/// model, and every sibling field is stored as if the element were absent.
pub proof fn lemma_unrecognized_subtree_skipped(
    st: StM,
    tag: Tag,
    inner: Seq<XmlEvent>,
    end_name: String,
    rest: Seq<XmlEvent>,
)
    requires
        st.mode is Top,
        st.in_metadata,
        !is_dc(tag.name@),
        tag.name@ != "meta"@,
        tag.name@ != "package"@,
        tag.name@ != "metadata"@,
        tag.name@ != "guide"@,
        excess(inner) == 0,
        forall|k: int| 0 <= k <= inner.len() ==> 1 + excess(#[trigger] inner.take(k)) >= 1,
        forall|j: int| 0 <= j < inner.len() ==> !((#[trigger] inner[j]) is Eof),
    ensures
        run_from(st, seq![XmlEvent::Start(tag)] + inner + seq![XmlEvent::End(end_name)] + rest)
            == run_from(st, rest),
{
    let opening = seq![XmlEvent::Start(tag)];
    let closing = seq![XmlEvent::End(end_name)];
    let subtree = opening + inner + closing;
    let whole = subtree + rest;
    assert(opening + inner + closing + rest =~= whole);
    assert(whole.subrange(0, subtree.len() as int) =~= subtree);
    assert(whole.subrange(subtree.len() as int, whole.len() as int) =~= rest);
    whole.lemma_fold_left_split(st, step_fn(), subtree.len() as int);
    assert(subtree.subrange(0, 1) =~= opening);
    assert(subtree.subrange(1, subtree.len() as int) =~= inner + closing);
    subtree.lemma_fold_left_split(st, step_fn(), 1);
    assert(opening.drop_last() =~= Seq::<XmlEvent>::empty());
    assert(Seq::<XmlEvent>::empty().fold_left(st, step_fn()) == st);
    assert(opening.last() == XmlEvent::Start(tag));
    let st1 = spec_step(st, XmlEvent::Start(tag));
    assert(run_from(st, opening) == st1);
    assert(st1.mode == ModeM::InSkip(1) && st1.doc == st.doc && st1.in_metadata == st.in_metadata
        && st1.in_guide == st.in_guide);
    let tail = inner + closing;
    assert(tail.subrange(0, inner.len() as int) =~= inner);
    assert(tail.subrange(inner.len() as int, tail.len() as int) =~= closing);
    tail.lemma_fold_left_split(st1, step_fn(), inner.len() as int);
    lemma_skip_run(st1, inner, 1);
    let st2 = run_from(st1, inner);
    assert(st2.mode == ModeM::InSkip(1));
    assert(closing.drop_last() =~= Seq::<XmlEvent>::empty());
    assert(Seq::<XmlEvent>::empty().fold_left(st2, step_fn()) == st2);
    assert(closing.last() == XmlEvent::End(end_name));
    let st3 = spec_step(st2, XmlEvent::End(end_name));
    assert(run_from(st, subtree) == st3);
    assert(st3.mode is Top && st3.doc == st.doc && st3.in_metadata == st.in_metadata
        && st3.in_guide == st.in_guide);
    assert(st3 == st);
}

} // verus!
