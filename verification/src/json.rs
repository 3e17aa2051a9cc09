//! JSON values and the edits applied to configuration files: dropping
//! empty values, overlaying a patch onto defaults, and keeping only the
//! keys a schema knows.
//!
//! Objects are lists of entries; key order carries no meaning, and the
//! configuration readers never produce two entries with one key.
use vstd::prelude::*;

use crate::text::{is_blank, trim};

verus! {

/// A JSON value. Numbers keep their source text.
#[derive(PartialEq, Eq, Debug)]
pub enum JsonValue {
    Null,
    Bool(bool),
    Number(String),
    Str(String),
    Array(Vec<JsonValue>),
    Object(Vec<(String, JsonValue)>),
}

/// The spec form of a `JsonValue`.
pub enum JsonView {
    Null,
    Bool(bool),
    Number(Seq<char>),
    Str(Seq<char>),
    Array(Seq<JsonView>),
    Object(Seq<(Seq<char>, JsonView)>),
}

impl JsonValue {
    pub open spec fn view(&self) -> JsonView
        decreases self,
    {
        match self {
            JsonValue::Null => JsonView::Null,
            JsonValue::Bool(b) => JsonView::Bool(*b),
            JsonValue::Number(n) => JsonView::Number(n@),
            JsonValue::Str(s) => JsonView::Str(s@),
            JsonValue::Array(items) => JsonView::Array(
                Seq::new(
                    items.len() as nat,
                    |i: int|
                        if 0 <= i < items.len() {
                            items@[i].view()
                        } else {
                            JsonView::Null
                        },
                ),
            ),
            JsonValue::Object(entries) => JsonView::Object(
                Seq::new(
                    entries.len() as nat,
                    |i: int|
                        if 0 <= i < entries.len() {
                            (entries@[i].0@, entries@[i].1.view())
                        } else {
                            (Seq::empty(), JsonView::Null)
                        },
                ),
            ),
        }
    }
}

/// An empty value: `null`, a blank string, or an array or object whose
/// items are all empty.
pub open spec fn is_empty_view(v: JsonView) -> bool
    decreases v,
{
    match v {
        JsonView::Null => true,
        JsonView::Str(s) => is_blank(s),
        JsonView::Array(items) => all_items_empty(items),
        JsonView::Object(entries) => all_entries_empty(entries),
        _ => false,
    }
}

/// Every item is empty.
pub open spec fn all_items_empty(items: Seq<JsonView>) -> bool
    decreases items,
{
    items.len() == 0 || (is_empty_view(items[items.len() - 1]) && all_items_empty(
        items.drop_last(),
    ))
}

/// Every entry's value is empty.
pub open spec fn all_entries_empty(entries: Seq<(Seq<char>, JsonView)>) -> bool
    decreases entries,
{
    entries.len() == 0 || (is_empty_view(entries[entries.len() - 1].1) && all_entries_empty(
        entries.drop_last(),
    ))
}

/// The first entry with key `k`.
pub open spec fn entry_index(entries: Seq<(Seq<char>, JsonView)>, k: Seq<char>) -> Option<int> {
    if exists|i: int| 0 <= i < entries.len() && entries[i].0 == k {
        Some(
            choose|i: int|
                0 <= i < entries.len() && entries[i].0 == k && forall|j: int|
                    0 <= j < i ==> entries[j].0 != k,
        )
    } else {
        None
    }
}

/// The value under key `k`.
pub open spec fn entry_get(entries: Seq<(Seq<char>, JsonView)>, k: Seq<char>) -> Option<JsonView> {
    match entry_index(entries, k) {
        Some(i) => Some(entries[i].1),
        None => None,
    }
}

/// The entries with `k` set to `v`, replacing the first entry with that
/// key, or added at the end.
pub open spec fn entry_insert(entries: Seq<(Seq<char>, JsonView)>, k: Seq<char>, v: JsonView) -> Seq<(Seq<char>, JsonView)> {
    match entry_index(entries, k) {
        Some(i) => entries.update(i, (k, v)),
        None => entries.push((k, v)),
    }
}

/// The entries without the first entry with key `k`.
pub open spec fn entry_remove(entries: Seq<(Seq<char>, JsonView)>, k: Seq<char>) -> Seq<(Seq<char>, JsonView)> {
    match entry_index(entries, k) {
        Some(i) => entries.remove(i),
        None => entries,
    }
}

// ---------------------------------------------------------------------------
// Pruning empty values
// ---------------------------------------------------------------------------
/// A value with its empty items dropped, recursively, and whether what is
/// left is empty: `null` and blank strings are empty, and so are arrays and
/// objects with nothing left.
pub open spec fn spec_prune(v: JsonView) -> (JsonView, bool)
    decreases v,
{
    match v {
        JsonView::Null => (v, true),
        JsonView::Str(s) => (v, is_blank(s)),
        JsonView::Array(items) => {
            let kept = prune_items(items);
            (JsonView::Array(kept), kept.len() == 0)
        },
        JsonView::Object(entries) => {
            let kept = prune_entries(entries);
            (JsonView::Object(kept), kept.len() == 0)
        },
        _ => (v, false),
    }
}

/// The pruned items that are not empty, in order.
pub open spec fn prune_items(items: Seq<JsonView>) -> Seq<JsonView>
    decreases items,
{
    if items.len() == 0 {
        Seq::empty()
    } else {
        let rest = prune_items(items.drop_last());
        let p = spec_prune(items[items.len() - 1]);
        if p.1 {
            rest
        } else {
            rest.push(p.0)
        }
    }
}

/// The entries whose pruned value is not empty, pruned, in order.
pub open spec fn prune_entries(entries: Seq<(Seq<char>, JsonView)>) -> Seq<(Seq<char>, JsonView)>
    decreases entries,
{
    if entries.len() == 0 {
        Seq::empty()
    } else {
        let rest = prune_entries(entries.drop_last());
        let e = entries[entries.len() - 1];
        let p = spec_prune(e.1);
        if p.1 {
            rest
        } else {
            rest.push((e.0, p.0))
        }
    }
}

// ---------------------------------------------------------------------------
// Executable operations
// ---------------------------------------------------------------------------
pub open spec fn items_view(v: Seq<JsonValue>) -> Seq<JsonView> {
    v.map_values(|x: JsonValue| x.view())
}

pub open spec fn entries_view(v: Seq<(String, JsonValue)>) -> Seq<(Seq<char>, JsonView)> {
    v.map_values(|e: (String, JsonValue)| (e.0@, e.1.view()))
}

pub proof fn lemma_array_view(items: Vec<JsonValue>)
    ensures
        JsonValue::Array(items).view() == JsonView::Array(items_view(items@)),
{
    if let JsonView::Array(s) = JsonValue::Array(items).view() {
        assert(s =~= items_view(items@));
    }
}

pub proof fn lemma_object_view(entries: Vec<(String, JsonValue)>)
    ensures
        JsonValue::Object(entries).view() == JsonView::Object(entries_view(entries@)),
{
    if let JsonView::Object(s) = JsonValue::Object(entries).view() {
        assert(s =~= entries_view(entries@));
    }
}

/// A copy of `v`.
#[verifier::loop_isolation(false)]
pub fn deep_copy(v: &JsonValue) -> (r: JsonValue)
    ensures
        r@ == v@,
    decreases v,
{
    match v {
        JsonValue::Null => JsonValue::Null,
        JsonValue::Bool(b) => JsonValue::Bool(*b),
        JsonValue::Number(n) => JsonValue::Number(n.clone()),
        JsonValue::Str(t) => JsonValue::Str(t.clone()),
        JsonValue::Array(items) => {
            let mut out: Vec<JsonValue> = Vec::new();
            let mut i: usize = 0;
            while i < items.len()
                invariant
                    i <= items.len(),
                    items_view(out@) == items_view(items@).take(i as int),
                decreases items.len() - i,
            {
                let c = deep_copy(&items[i]);
                let ghost before = items_view(out@);
                out.push(c);
                assert(items_view(out@) =~= items_view(items@).take(i + 1));
                i += 1;
            }
            assert(items_view(items@).take(items.len() as int) =~= items_view(items@));
            proof {
                lemma_array_view(out);
                lemma_array_view(*items);
            }
            JsonValue::Array(out)
        },
        JsonValue::Object(entries) => {
            let mut out: Vec<(String, JsonValue)> = Vec::new();
            let mut i: usize = 0;
            while i < entries.len()
                invariant
                    i <= entries.len(),
                    entries_view(out@) == entries_view(entries@).take(i as int),
                decreases entries.len() - i,
            {
                let c = deep_copy(&entries[i].1);
                let k = entries[i].0.clone();
                out.push((k, c));
                assert(entries_view(out@) =~= entries_view(entries@).take(i + 1));
                i += 1;
            }
            assert(entries_view(entries@).take(entries.len() as int) =~= entries_view(entries@));
            proof {
                lemma_object_view(out);
                lemma_object_view(*entries);
            }
            JsonValue::Object(out)
        },
    }
}

/// Is `v` empty: `null`, a blank string, or an array or object whose items
/// are all empty?
#[verifier::loop_isolation(false)]
pub fn is_empty_json_value(v: &JsonValue) -> (r: bool)
    ensures
        r == is_empty_view(v@),
    decreases v,
{
    match v {
        JsonValue::Null => true,
        JsonValue::Bool(_) => false,
        JsonValue::Number(_) => false,
        JsonValue::Str(t) => crate::text::is_blank_chars(&crate::text::chars_of(t.as_str())),
        JsonValue::Array(items) => {
            proof {
                lemma_array_view(*items);
            }
            let ghost iv = items_view(items@);
            let mut all = true;
            let mut i: usize = 0;
            while i < items.len()
                invariant
                    i <= items.len(),
                    iv == items_view(items@),
                    all == all_items_empty(iv.take(i as int)),
                decreases items.len() - i,
            {
                let e = is_empty_json_value(&items[i]);
                assert(iv.take(i + 1).drop_last() =~= iv.take(i as int));
                assert(iv.take(i + 1)[i as int] == items@[i as int]@);
                all = e && all;
                i += 1;
            }
            assert(iv.take(items.len() as int) =~= iv);
            all
        },
        JsonValue::Object(entries) => {
            proof {
                lemma_object_view(*entries);
            }
            let ghost ev = entries_view(entries@);
            let mut all = true;
            let mut i: usize = 0;
            while i < entries.len()
                invariant
                    i <= entries.len(),
                    ev == entries_view(entries@),
                    all == all_entries_empty(ev.take(i as int)),
                decreases entries.len() - i,
            {
                let e = is_empty_json_value(&entries[i].1);
                assert(ev.take(i + 1).drop_last() =~= ev.take(i as int));
                assert(ev.take(i + 1)[i as int].1 == entries@[i as int].1@);
                all = e && all;
                i += 1;
            }
            assert(ev.take(entries.len() as int) =~= ev);
            all
        },
    }
}

/// `v` with its empty items dropped, recursively, and whether what is
/// left is empty.
#[verifier::loop_isolation(false)]
pub fn prune(v: &JsonValue) -> (r: (JsonValue, bool))
    ensures
        (r.0@, r.1) == spec_prune(v@),
    decreases v,
{
    match v {
        JsonValue::Null => (JsonValue::Null, true),
        JsonValue::Bool(b) => (JsonValue::Bool(*b), false),
        JsonValue::Number(n) => (JsonValue::Number(n.clone()), false),
        JsonValue::Str(t) => {
            let blank = crate::text::is_blank_chars(&crate::text::chars_of(t.as_str()));
            (JsonValue::Str(t.clone()), blank)
        },
        JsonValue::Array(items) => {
            proof {
                lemma_array_view(*items);
            }
            let ghost iv = items_view(items@);
            let mut out: Vec<JsonValue> = Vec::new();
            let mut i: usize = 0;
            while i < items.len()
                invariant
                    i <= items.len(),
                    iv == items_view(items@),
                    items_view(out@) == prune_items(iv.take(i as int)),
                decreases items.len() - i,
            {
                let (p, empty) = prune(&items[i]);
                let ghost before = items_view(out@);
                assert(iv.take(i + 1).drop_last() =~= iv.take(i as int));
                assert(iv.take(i + 1)[i as int] == items@[i as int]@);
                if !empty {
                    out.push(p);
                    assert(items_view(out@) =~= before.push(p@));
                }
                i += 1;
            }
            assert(iv.take(items.len() as int) =~= iv);
            let empty = out.len() == 0;
            proof {
                lemma_array_view(out);
            }
            (JsonValue::Array(out), empty)
        },
        JsonValue::Object(entries) => {
            proof {
                lemma_object_view(*entries);
            }
            let ghost ev = entries_view(entries@);
            let mut out: Vec<(String, JsonValue)> = Vec::new();
            let mut i: usize = 0;
            while i < entries.len()
                invariant
                    i <= entries.len(),
                    ev == entries_view(entries@),
                    entries_view(out@) == prune_entries(ev.take(i as int)),
                decreases entries.len() - i,
            {
                let (p, empty) = prune(&entries[i].1);
                let ghost before = entries_view(out@);
                assert(ev.take(i + 1).drop_last() =~= ev.take(i as int));
                assert(ev.take(i + 1)[i as int] == (entries@[i as int].0@, entries@[i as int].1@));
                if !empty {
                    let k = entries[i].0.clone();
                    out.push((k, p));
                    assert(entries_view(out@) =~= before.push((entries@[i as int].0@, p@)));
                }
                i += 1;
            }
            assert(ev.take(entries.len() as int) =~= ev);
            let empty = out.len() == 0;
            proof {
                lemma_object_view(out);
            }
            (JsonValue::Object(out), empty)
        },
    }
}

/// Drops empty items from `value`, recursively, in place; returns whether
/// what is left is empty.
pub fn prune_empty_json_values(value: &mut JsonValue) -> (r: bool)
    ensures
        final(value)@ == spec_prune(old(value)@).0,
        r == spec_prune(old(value)@).1,
{
    let (p, empty) = prune(value);
    *value = p;
    empty
}

/// An object's entries with empty values dropped and the rest pruned.
pub fn object_without_empty_values(entries: Vec<(String, JsonValue)>) -> (r: Vec<(String, JsonValue)>)
    ensures
        entries_view(r@) == prune_entries(entries_view(entries@)),
{
    proof {
        lemma_object_view(entries);
    }
    let (pruned, _) = prune(&JsonValue::Object(entries));
    match pruned {
        JsonValue::Object(out) => {
            proof {
                lemma_object_view(out);
            }
            out
        },
        _ => Vec::new(),
    }
}

// ---------------------------------------------------------------------------
// Entries
// ---------------------------------------------------------------------------
/// Finds the first entry with key `k`.
pub fn find_entry(entries: &Vec<(String, JsonValue)>, k: &str) -> (r: Option<usize>)
    ensures
        match (r, entry_index(entries_view(entries@), k@)) {
            (Some(i), Some(si)) => i == si && i < entries.len(),
            (None, None) => true,
            _ => false,
        },
{
    let ghost ev = entries_view(entries@);
    let key = k.to_owned();
    let mut i: usize = 0;
    while i < entries.len()
        invariant
            i <= entries.len(),
            ev == entries_view(entries@),
            key@ == k@,
            forall|j: int| 0 <= j < i ==> ev[j].0 != k@,
        decreases entries.len() - i,
    {
        assert(ev[i as int].0 == entries@[i as int].0@);
        if entries[i].0 == key {
            proof {
                assert(ev[i as int].0 == k@);
                let si = choose|j: int|
                    0 <= j < ev.len() && ev[j].0 == k@ && forall|m: int| 0 <= m < j ==> ev[m].0 != k@;
                if si < i {
                } else if si > i {
                    assert(ev[i as int].0 != k@);
                }
            }
            return Some(i);
        }
        i += 1;
    }
    None
}

/// Sets key `k` to `v`, replacing the first entry with that key, or adding
/// an entry at the end.
pub fn insert_entry(entries: &mut Vec<(String, JsonValue)>, k: &str, v: JsonValue)
    ensures
        entries_view(final(entries)@) == entry_insert(entries_view(old(entries)@), k@, v@),
{
    let ghost before = entries_view(entries@);
    match find_entry(entries, k) {
        Some(i) => {
            entries.set(i, (k.to_owned(), v));
            assert(entries_view(entries@) =~= before.update(i as int, (k@, v@)));
        },
        None => {
            entries.push((k.to_owned(), v));
            assert(entries_view(entries@) =~= before.push((k@, v@)));
        },
    }
}

/// Removes the first entry with key `k`, if any.
pub fn remove_entry(entries: &mut Vec<(String, JsonValue)>, k: &str)
    ensures
        entries_view(final(entries)@) == entry_remove(entries_view(old(entries)@), k@),
{
    let ghost before = entries_view(entries@);
    match find_entry(entries, k) {
        Some(i) => {
            entries.remove(i);
            assert(entries_view(entries@) =~= before.remove(i as int));
        },
        None => {},
    }
}

// ---------------------------------------------------------------------------
// Overlaying a patch
// ---------------------------------------------------------------------------
/// `base` with `patch` laid over it: an empty patch changes nothing; two
/// objects merge key by key, skipping empty patch values; anything else is
/// replaced by the patch.
pub open spec fn spec_merge(base: JsonView, patch: JsonView) -> JsonView
    decreases patch,
{
    if is_empty_view(patch) {
        base
    } else {
        match (base, patch) {
            (JsonView::Object(b), JsonView::Object(p)) => JsonView::Object(merge_entries(b, p)),
            _ => patch,
        }
    }
}

/// The entries `b` with the patch entries `p` laid over them in order.
pub open spec fn merge_entries(b: Seq<(Seq<char>, JsonView)>, p: Seq<(Seq<char>, JsonView)>) -> Seq<(Seq<char>, JsonView)>
    decreases p,
{
    if p.len() == 0 {
        b
    } else {
        let last = p[p.len() - 1];
        let acc = merge_entries(b, p.drop_last());
        if is_empty_view(last.1) {
            acc
        } else {
            match entry_index(acc, last.0) {
                Some(i) => acc.update(i, (last.0, spec_merge(acc[i].1, last.1))),
                None => acc.push(last),
            }
        }
    }
}

fn copy_entries(b: &Vec<(String, JsonValue)>) -> (r: Vec<(String, JsonValue)>)
    ensures
        entries_view(r@) == entries_view(b@),
{
    let ghost bv = entries_view(b@);
    let mut acc: Vec<(String, JsonValue)> = Vec::new();
    let mut i: usize = 0;
    while i < b.len()
        invariant
            i <= b.len(),
            bv == entries_view(b@),
            entries_view(acc@) == bv.take(i as int),
        decreases b.len() - i,
    {
        let c = deep_copy(&b[i].1);
        let k = b[i].0.clone();
        let ghost before = entries_view(acc@);
        acc.push((k, c));
        assert(entries_view(acc@) =~= before.push((b@[i as int].0@, b@[i as int].1@)));
        assert(bv.take(i + 1) =~= bv.take(i as int).push(bv[i as int]));
        i += 1;
    }
    assert(bv.take(b.len() as int) =~= bv);
    acc
}

/// Lays the patch entries `p` over `acc` in order.
#[verifier::spinoff_prover]
#[verifier::rlimit(50)]
fn merge_entries_into(acc: &mut Vec<(String, JsonValue)>, p: &Vec<(String, JsonValue)>)
    ensures
        entries_view(final(acc)@) == merge_entries(entries_view(old(acc)@), entries_view(p@)),
    decreases p,
{
    let ghost bv = entries_view(acc@);
    let ghost pv = entries_view(p@);
    let mut j: usize = 0;
    assert(pv.take(0) =~= Seq::<(Seq<char>, JsonView)>::empty());
    while j < p.len()
        invariant
            j <= p.len(),
            pv == entries_view(p@),
            entries_view(acc@) == merge_entries(bv, pv.take(j as int)),
        decreases p.len() - j,
    {
        proof {
            lemma_merge_entries_step(bv, pv, j as int);
        }
        assert(pv[j as int] == (p@[j as int].0@, p@[j as int].1@));
        let ghost before = entries_view(acc@);
        let key = &p[j].0;
        let pval = &p[j].1;
        if !is_empty_json_value(pval) {
            match find_entry(acc, key.as_str()) {
                Some(k) => {
                    assert(before[k as int] == (acc@[k as int].0@, acc@[k as int].1@));
                    let m = merged(&acc[k].1, pval);
                    let ghost mv = m@;
                    let kc = key.clone();
                    let ghost kv = kc@;
                    acc.set(k, (kc, m));
                    assert(entries_view(acc@)[k as int] == (kv, mv));
                    assert(entries_view(acc@) =~= before.update(
                        k as int,
                        (key@, spec_merge(before[k as int].1, pval@)),
                    ));
                },
                None => {
                    let c = deep_copy(pval);
                    acc.push((key.clone(), c));
                    assert(entries_view(acc@) =~= before.push((key@, pval@)));
                },
            }
        }
        j += 1;
    }
    assert(pv.take(p.len() as int) =~= pv);
}

proof fn lemma_merge_entries_step(b: Seq<(Seq<char>, JsonView)>, p: Seq<(Seq<char>, JsonView)>, j: int)
    requires
        0 <= j < p.len(),
    ensures
        ({
            let acc = merge_entries(b, p.take(j));
            let last = p[j];
            merge_entries(b, p.take(j + 1)) == if is_empty_view(last.1) {
                acc
            } else {
                match entry_index(acc, last.0) {
                    Some(i) => acc.update(i, (last.0, spec_merge(acc[i].1, last.1))),
                    None => acc.push(last),
                }
            }
        }),
{
    assert(p.take(j + 1).drop_last() =~= p.take(j));
    assert(p.take(j + 1)[j] == p[j]);
}

/// `base` with `patch` laid over it.
pub fn merged(base: &JsonValue, patch: &JsonValue) -> (r: JsonValue)
    ensures
        r@ == spec_merge(base@, patch@),
    decreases patch,
{
    if is_empty_json_value(patch) {
        return deep_copy(base);
    }
    match (base, patch) {
        (JsonValue::Object(b), JsonValue::Object(p)) => {
            proof {
                lemma_object_view(*b);
                lemma_object_view(*p);
            }
            let mut acc = copy_entries(b);
            merge_entries_into(&mut acc, p);
            proof {
                lemma_object_view(acc);
            }
            JsonValue::Object(acc)
        },
        _ => deep_copy(patch),
    }
}

/// Lays `patch` over `base` in place.
pub fn merge_non_empty_json_values(base: &mut JsonValue, patch: &JsonValue)
    ensures
        final(base)@ == spec_merge(old(base)@, patch@),
{
    let m = merged(base, patch);
    *base = m;
}

// ---------------------------------------------------------------------------
// Filtering by a schema
// ---------------------------------------------------------------------------
/// `value` with only the keys that `schema` has, recursively through
/// objects; other values are kept as they are.
pub open spec fn spec_filter(value: JsonView, schema: JsonView) -> JsonView
    decreases value,
{
    match (value, schema) {
        (JsonView::Object(ve), JsonView::Object(se)) => JsonView::Object(filter_entries(ve, se)),
        _ => value,
    }
}

/// The entries of `ve` whose key `se` has, each filtered by the schema
/// value under its key.
pub open spec fn filter_entries(ve: Seq<(Seq<char>, JsonView)>, se: Seq<(Seq<char>, JsonView)>) -> Seq<(Seq<char>, JsonView)>
    decreases ve,
{
    if ve.len() == 0 {
        Seq::empty()
    } else {
        let acc = filter_entries(ve.drop_last(), se);
        let e = ve[ve.len() - 1];
        match entry_get(se, e.0) {
            Some(sv) => entry_insert(acc, e.0, spec_filter(e.1, sv)),
            None => acc,
        }
    }
}

#[verifier::loop_isolation(false)]
fn filter_entries_exec(ve: &Vec<(String, JsonValue)>, se: &Vec<(String, JsonValue)>) -> (r: Vec<(String, JsonValue)>)
    ensures
        entries_view(r@) == filter_entries(entries_view(ve@), entries_view(se@)),
    decreases ve,
{
    let ghost vv = entries_view(ve@);
    let ghost sv = entries_view(se@);
    let mut out: Vec<(String, JsonValue)> = Vec::new();
    let mut i: usize = 0;
    assert(vv.take(0) =~= Seq::<(Seq<char>, JsonView)>::empty());
    while i < ve.len()
        invariant
            i <= ve.len(),
            entries_view(out@) == filter_entries(vv.take(i as int), sv),
        decreases ve.len() - i,
    {
        assert(vv.take(i + 1).drop_last() =~= vv.take(i as int));
        assert(vv.take(i + 1)[i as int] == (ve@[i as int].0@, ve@[i as int].1@));
        match find_entry(se, ve[i].0.as_str()) {
            Some(k) => {
                assert(sv[k as int] == (se@[k as int].0@, se@[k as int].1@));
                let f = filter_json_by_schema(&ve[i].1, &se[k].1);
                insert_entry(&mut out, ve[i].0.as_str(), f);
            },
            None => {},
        }
        i += 1;
    }
    assert(vv.take(ve.len() as int) =~= vv);
    out
}

/// `value` with only the keys that `schema` has.
pub fn filter_json_by_schema(value: &JsonValue, schema: &JsonValue) -> (r: JsonValue)
    ensures
        r@ == spec_filter(value@, schema@),
    decreases value,
{
    match (value, schema) {
        (JsonValue::Object(ve), JsonValue::Object(se)) => {
            proof {
                lemma_object_view(*ve);
                lemma_object_view(*se);
            }
            let out = filter_entries_exec(ve, se);
            proof {
                lemma_object_view(out);
            }
            JsonValue::Object(out)
        },
        _ => deep_copy(value),
    }
}

/// `value` has the kinds `schema` has: where the schema holds a boolean,
/// number, string or array, the value holds one too; where it holds an
/// object, the value is an object whose entries under the schema's keys
/// have the kinds of the schema's values there. `null` in the schema
/// admits anything.
pub open spec fn kinds_match(value: JsonView, schema: JsonView) -> bool
    decreases value,
{
    match schema {
        JsonView::Null => true,
        JsonView::Bool(_) => value is Bool,
        JsonView::Number(_) => value is Number,
        JsonView::Str(_) => value is Str,
        JsonView::Array(_) => value is Array,
        JsonView::Object(se) => match value {
            JsonView::Object(ve) => entries_kinds_match(ve, se),
            _ => false,
        },
    }
}

/// Every entry of `ve` whose key `se` has matches the kinds of the schema
/// value under that key.
pub open spec fn entries_kinds_match(ve: Seq<(Seq<char>, JsonView)>, se: Seq<(Seq<char>, JsonView)>) -> bool
    decreases ve,
{
    if ve.len() == 0 {
        true
    } else {
        let e = ve[ve.len() - 1];
        entries_kinds_match(ve.drop_last(), se) && match entry_get(se, e.0) {
            Some(sv) => kinds_match(e.1, sv),
            None => true,
        }
    }
}

fn entries_kinds_match_exec(ve: &Vec<(String, JsonValue)>, se: &Vec<(String, JsonValue)>) -> (r: bool)
    ensures
        r == entries_kinds_match(entries_view(ve@), entries_view(se@)),
    decreases ve,
{
    let ghost vv = entries_view(ve@);
    let ghost sv = entries_view(se@);
    let mut ok = true;
    let mut i: usize = 0;
    assert(vv.take(0) =~= Seq::<(Seq<char>, JsonView)>::empty());
    while i < ve.len()
        invariant
            i <= ve.len(),
            vv == entries_view(ve@),
            sv == entries_view(se@),
            ok == entries_kinds_match(vv.take(i as int), sv),
        decreases ve.len() - i,
    {
        assert(vv.take(i + 1).drop_last() =~= vv.take(i as int));
        assert(vv.take(i + 1)[i as int] == (ve@[i as int].0@, ve@[i as int].1@));
        let here = match find_entry(se, ve[i].0.as_str()) {
            Some(k) => {
                assert(sv[k as int] == (se@[k as int].0@, se@[k as int].1@));
                json_kinds_match(&ve[i].1, &se[k].1)
            },
            None => true,
        };
        ok = ok && here;
        i += 1;
    }
    assert(vv.take(ve.len() as int) =~= vv);
    ok
}

/// Does `value` have the kinds of `schema`?
pub fn json_kinds_match(value: &JsonValue, schema: &JsonValue) -> (r: bool)
    ensures
        r == kinds_match(value@, schema@),
    decreases value,
{
    match schema {
        JsonValue::Null => true,
        JsonValue::Bool(_) => matches!(value, JsonValue::Bool(_)),
        JsonValue::Number(_) => matches!(value, JsonValue::Number(_)),
        JsonValue::Str(_) => matches!(value, JsonValue::Str(_)),
        JsonValue::Array(_) => matches!(value, JsonValue::Array(_)),
        JsonValue::Object(se) => match value {
            JsonValue::Object(ve) => {
                proof {
                    lemma_object_view(*ve);
                    lemma_object_view(*se);
                }
                entries_kinds_match_exec(ve, se)
            },
            _ => false,
        },
    }
}

// ---------------------------------------------------------------------------
// Reading JSON text
// ---------------------------------------------------------------------------
#[verifier::external_type_specification]
#[verifier::external_body]
pub struct ExSerdeJsonValue(serde_json::Value);

/// What `serde_json::from_str::<serde_json::Value>` gives for `text`: the
/// value read, or the text of the error it reports.
pub uninterp spec fn serde_json_parse(text: Seq<char>) -> Result<JsonView, Seq<char>>;

/// The spec form of a parse result.
pub open spec fn parsed_view(r: Result<JsonValue, String>) -> Result<JsonView, Seq<char>> {
    match r {
        Ok(v) => Ok(v@),
        Err(e) => Err(e@),
    }
}

/// Reads JSON text.
///
/// Trusted: calls `serde_json::from_str::<serde_json::Value>` and converts
/// the value one for one with `json_from_serde`, or the error into its
/// `Display` text. The claim is only that the result is a function of the
/// text: serde_json keeps objects in a `BTreeMap` (its `preserve_order`
/// feature is off here), so entries come out in key order and a repeated
/// key keeps its last value. Which texts parse, and to what, is not stated.
#[verifier::external_body]
pub(crate) fn parse_json_text(text: &str) -> (r: Result<JsonValue, String>)
    ensures
        parsed_view(r) == serde_json_parse(text@),
{
    match serde_json::from_str::<serde_json::Value>(text) {
        Ok(v) => Ok(json_from_serde(v)),
        Err(e) => Err(e.to_string()),
    }
}

/// Converts a `serde_json::Value` into a `JsonValue`, variant by variant;
/// a number keeps the text `serde_json::Number` displays. Only
/// `parse_json_text` calls it, and its contract covers the conversion.
#[verifier::external_body]
fn json_from_serde(v: serde_json::Value) -> JsonValue {
    match v {
        serde_json::Value::Null => JsonValue::Null,
        serde_json::Value::Bool(b) => JsonValue::Bool(b),
        serde_json::Value::Number(n) => JsonValue::Number(n.to_string()),
        serde_json::Value::String(s) => JsonValue::Str(s),
        serde_json::Value::Array(items) => JsonValue::Array(items.into_iter().map(json_from_serde).collect()),
        serde_json::Value::Object(map) => JsonValue::Object(map.into_iter().map(|(k, v)| (k, json_from_serde(v))).collect()),
    }
}

// ---------------------------------------------------------------------------
// Laws
// ---------------------------------------------------------------------------
/// After pruning, a value is reported empty exactly when what is left is
/// empty, and pruning what is left changes nothing.
pub proof fn law_prune_settles(v: JsonView)
    ensures
        spec_prune(v).1 == is_empty_view(spec_prune(v).0),
        spec_prune(spec_prune(v).0) == spec_prune(v),
    decreases v,
{
    match v {
        JsonView::Array(items) => {
            lemma_prune_items_settle(items);
        },
        JsonView::Object(entries) => {
            lemma_prune_entries_settle(entries);
        },
        _ => {},
    }
}

proof fn lemma_prune_items_settle(items: Seq<JsonView>)
    ensures
        all_items_empty(prune_items(items)) == (prune_items(items).len() == 0),
        prune_items(prune_items(items)) == prune_items(items),
    decreases items,
{
    if items.len() > 0 {
        let rest = prune_items(items.drop_last());
        let last = items[items.len() - 1];
        let p = spec_prune(last);
        lemma_prune_items_settle(items.drop_last());
        law_prune_settles(last);
        if !p.1 {
            let kept = rest.push(p.0);
            assert(kept.drop_last() =~= rest);
            assert(kept[kept.len() - 1] == p.0);
        }
    }
}

proof fn lemma_prune_entries_settle(entries: Seq<(Seq<char>, JsonView)>)
    ensures
        all_entries_empty(prune_entries(entries)) == (prune_entries(entries).len() == 0),
        prune_entries(prune_entries(entries)) == prune_entries(entries),
    decreases entries,
{
    if entries.len() > 0 {
        let rest = prune_entries(entries.drop_last());
        let last = entries[entries.len() - 1];
        let p = spec_prune(last.1);
        lemma_prune_entries_settle(entries.drop_last());
        law_prune_settles(last.1);
        if !p.1 {
            let kept = rest.push((last.0, p.0));
            assert(kept.drop_last() =~= rest);
            assert(kept[kept.len() - 1] == (last.0, p.0));
        }
    }
}

/// An empty patch leaves the base as it is.
pub proof fn law_empty_patch_changes_nothing(base: JsonView, patch: JsonView)
    requires
        is_empty_view(patch),
    ensures
        spec_merge(base, patch) == base,
{
}

/// The keys of an object.
pub open spec fn has_key(entries: Seq<(Seq<char>, JsonView)>, k: Seq<char>) -> bool {
    exists|i: int| 0 <= i < entries.len() && entries[i].0 == k
}

proof fn lemma_entry_get_some(entries: Seq<(Seq<char>, JsonView)>, k: Seq<char>)
    ensures
        entry_get(entries, k) is Some <==> has_key(entries, k),
{
    if has_key(entries, k) {
        let i = choose|i: int| 0 <= i < entries.len() && entries[i].0 == k;
        lemma_first_key(entries, k, i);
    }
}

proof fn lemma_first_key(entries: Seq<(Seq<char>, JsonView)>, k: Seq<char>, w: int)
    requires
        0 <= w < entries.len(),
        entries[w].0 == k,
    ensures
        exists|i: int|
            0 <= i < entries.len() && entries[i].0 == k && forall|j: int|
                0 <= j < i ==> entries[j].0 != k,
    decreases w,
{
    if exists|j: int| 0 <= j < w && entries[j].0 == k {
        let j = choose|j: int| 0 <= j < w && entries[j].0 == k;
        lemma_first_key(entries, k, j);
    } else {
        assert(forall|j: int| 0 <= j < w ==> entries[j].0 != k);
    }
}

proof fn lemma_entry_index_range(entries: Seq<(Seq<char>, JsonView)>, k: Seq<char>)
    ensures
        entry_index(entries, k) matches Some(j) ==> 0 <= j < entries.len() && entries[j].0 == k,
{
    if has_key(entries, k) {
        let i = choose|i: int| 0 <= i < entries.len() && entries[i].0 == k;
        lemma_first_key(entries, k, i);
    }
}

proof fn lemma_insert_keys(entries: Seq<(Seq<char>, JsonView)>, k: Seq<char>, v: JsonView, x: Seq<char>)
    ensures
        has_key(entry_insert(entries, k, v), x) ==> (has_key(entries, x) || x == k),
{
    lemma_entry_index_range(entries, k);
    let e2 = entry_insert(entries, k, v);
    if has_key(e2, x) {
        let i = choose|i: int| 0 <= i < e2.len() && e2[i].0 == x;
        match entry_index(entries, k) {
            Some(j) => {
                if i != j {
                    assert(e2[i] == entries[i]);
                }
            },
            None => {
                if i < entries.len() {
                    assert(e2[i] == entries[i]);
                }
            },
        }
    }
}

proof fn lemma_filter_entries_keys(ve: Seq<(Seq<char>, JsonView)>, se: Seq<(Seq<char>, JsonView)>, x: Seq<char>)
    ensures
        has_key(filter_entries(ve, se), x) ==> has_key(se, x),
    decreases ve.len(),
{
    if ve.len() > 0 {
        let acc = filter_entries(ve.drop_last(), se);
        let e = ve[ve.len() - 1];
        lemma_filter_entries_keys(ve.drop_last(), se, x);
        lemma_entry_get_some(se, e.0);
        match entry_get(se, e.0) {
            Some(sv) => {
                lemma_insert_keys(acc, e.0, spec_filter(e.1, sv), x);
            },
            None => {},
        }
    }
}

/// Filtering an object by an object schema keeps only keys the schema has.
pub proof fn law_filter_keeps_schema_keys(value: Seq<(Seq<char>, JsonView)>, schema: Seq<(Seq<char>, JsonView)>, key: Seq<char>)
    ensures
        spec_filter(JsonView::Object(value), JsonView::Object(schema)) matches JsonView::Object(out)
            && (has_key(out, key) ==> has_key(schema, key)),
{
    lemma_filter_entries_keys(value, schema, key);
}

} // verus!
