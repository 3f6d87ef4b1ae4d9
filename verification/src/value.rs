//! The value tree built by a successful parse, and the spec-level functions
//! that treat an object's entry list as a mapping from keys to values.

use crate::text::text_eq;
use vstd::pervasive::VecAdditionalExecFns;
use vstd::prelude::*;

verus! {

/// A node in the value tree.
///
/// Objects are unordered mappings from string keys to values; they are kept
/// as entry lists whose keys are unique (a repeated key in the source
/// overwrites the earlier entry: last write wins). Arrays are ordered.
/// Numbers keep their validated source text, as in [`crate::token::Token`].
#[derive(Debug, PartialEq)]
pub enum Datum {
    Str(String),
    Number(String),
    Boolean(bool),
    Null,
    Object(Vec<(String, Datum)>),
    Array(Vec<Datum>),
}

/// Mathematical image of a [`Datum`].
pub ghost enum DatumView {
    Str(Seq<char>),
    Number(Seq<char>),
    Boolean(bool),
    Null,
    Object(Seq<(Seq<char>, DatumView)>),
    Array(Seq<DatumView>),
}

impl Datum {
    /// The mathematical value of this node.
    pub open spec fn model(self) -> DatumView
        decreases self,
    {
        match self {
            Datum::Str(s) => DatumView::Str(s@),
            Datum::Number(s) => DatumView::Number(s@),
            Datum::Boolean(b) => DatumView::Boolean(b),
            Datum::Null => DatumView::Null,
            Datum::Object(entries) => DatumView::Object(entries_view(entries@)),
            Datum::Array(items) => DatumView::Array(items_view(items@)),
        }
    }
}

/// The entries of an exec object, as ghost pairs.
pub open spec fn entries_view(entries: Seq<(String, Datum)>) -> Seq<(Seq<char>, DatumView)>
    decreases entries,
{
    if entries.len() == 0 {
        Seq::empty()
    } else {
        seq![(entries[0].0@, entries[0].1.model())] + entries_view(entries.drop_first())
    }
}

/// The items of an exec array, as ghost values.
pub open spec fn items_view(items: Seq<Datum>) -> Seq<DatumView>
    decreases items,
{
    if items.len() == 0 {
        Seq::empty()
    } else {
        seq![items[0].model()] + items_view(items.drop_first())
    }
}

/// `entries_view` acts elementwise.
pub proof fn lemma_entries_view_index(entries: Seq<(String, Datum)>)
    ensures
        entries_view(entries).len() == entries.len(),
        forall|i: int|
            0 <= i < entries.len() ==> #[trigger] entries_view(entries)[i] == (
            entries[i].0@,
            entries[i].1.model(),
            ),
    decreases entries.len(),
{
    if entries.len() > 0 {
        lemma_entries_view_index(entries.drop_first());
    }
}

/// `items_view` acts elementwise.
pub proof fn lemma_items_view_index(items: Seq<Datum>)
    ensures
        items_view(items).len() == items.len(),
        forall|i: int|
            0 <= i < items.len() ==> #[trigger] items_view(items)[i] == items[i].model(),
    decreases items.len(),
{
    if items.len() > 0 {
        lemma_items_view_index(items.drop_first());
    }
}

/// The first position of `key` in an entry list, or `-1` if absent.
pub open spec fn key_index(entries: Seq<(Seq<char>, DatumView)>, key: Seq<char>) -> int
    decreases entries.len(),
{
    if entries.len() == 0 {
        -1
    } else if entries[0].0 == key {
        0
    } else {
        let r = key_index(entries.drop_first(), key);
        if r < 0 {
            -1
        } else {
            r + 1
        }
    }
}

/// Looking `key` up in an entry list.
pub open spec fn obj_lookup(entries: Seq<(Seq<char>, DatumView)>, key: Seq<char>) -> Option<
    DatumView,
> {
    let i = key_index(entries, key);
    if i >= 0 {
        Some(entries[i].1)
    } else {
        None
    }
}

/// Binding `key` to `value` in an entry list: an entry already holding the
/// key is overwritten in place, otherwise the pair is appended.
pub open spec fn obj_insert(
    entries: Seq<(Seq<char>, DatumView)>,
    key: Seq<char>,
    value: DatumView,
) -> Seq<(Seq<char>, DatumView)> {
    let i = key_index(entries, key);
    if i >= 0 {
        entries.update(i, (key, value))
    } else {
        entries.push((key, value))
    }
}

/// No key occurs twice in the entry list.
pub open spec fn keys_unique(entries: Seq<(Seq<char>, DatumView)>) -> bool {
    forall|i: int, j: int|
        0 <= i < j < entries.len() ==> (#[trigger] entries[i]).0 != (#[trigger] entries[j]).0
}

/// The entry list read as a mapping from keys to values.
pub open spec fn obj_as_map(entries: Seq<(Seq<char>, DatumView)>) -> Map<Seq<char>, DatumView>
    decreases entries.len(),
{
    if entries.len() == 0 {
        Map::empty()
    } else {
        obj_as_map(entries.drop_last()).insert(entries.last().0, entries.last().1)
    }
}

/// Every object standing anywhere below `v` binds each key at most once.
pub open spec fn wf_value(v: DatumView) -> bool
    decreases v,
{
    match v {
        DatumView::Object(entries) => keys_unique(entries) && wf_entries(entries),
        DatumView::Array(items) => wf_items(items),
        _ => true,
    }
}

/// Every value of the entry list is well formed.
pub open spec fn wf_entries(entries: Seq<(Seq<char>, DatumView)>) -> bool
    decreases entries,
{
    entries.len() == 0 || (wf_value(entries[0].1) && wf_entries(entries.drop_first()))
}

/// Every item of the list is well formed.
pub open spec fn wf_items(items: Seq<DatumView>) -> bool
    decreases items,
{
    items.len() == 0 || (wf_value(items[0]) && wf_items(items.drop_first()))
}

/// `wf_entries` holds exactly when each entry's value is well formed.
pub proof fn lemma_wf_entries_index(entries: Seq<(Seq<char>, DatumView)>)
    ensures
        wf_entries(entries) <==> forall|i: int|
            0 <= i < entries.len() ==> wf_value((#[trigger] entries[i]).1),
    decreases entries.len(),
{
    if entries.len() > 0 {
        lemma_wf_entries_index(entries.drop_first());
        assert(forall|t: int|
            1 <= t < entries.len() ==> (#[trigger] entries[t]) == entries.drop_first()[t - 1]);
    }
}

/// `wf_items` holds exactly when each item is well formed.
pub proof fn lemma_wf_items_index(items: Seq<DatumView>)
    ensures
        wf_items(items) <==> forall|i: int|
            0 <= i < items.len() ==> wf_value(#[trigger] items[i]),
    decreases items.len(),
{
    if items.len() > 0 {
        lemma_wf_items_index(items.drop_first());
        assert(forall|t: int|
            1 <= t < items.len() ==> (#[trigger] items[t]) == items.drop_first()[t - 1]);
    }
}

/// What `key_index` finds: either nothing, and then no entry holds the key,
/// or the first entry holding it.
pub proof fn lemma_key_index_props(entries: Seq<(Seq<char>, DatumView)>, key: Seq<char>)
    ensures
        key_index(entries, key) == -1 || 0 <= key_index(entries, key) < entries.len(),
        key_index(entries, key) == -1 ==> forall|t: int|
            0 <= t < entries.len() ==> (#[trigger] entries[t]).0 != key,
        key_index(entries, key) >= 0 ==> entries[key_index(entries, key)].0 == key,
        key_index(entries, key) >= 0 ==> forall|t: int|
            0 <= t < key_index(entries, key) ==> (#[trigger] entries[t]).0 != key,
    decreases entries.len(),
{
    if entries.len() > 0 && entries[0].0 != key {
        lemma_key_index_props(entries.drop_first(), key);
        assert(forall|t: int|
            1 <= t < entries.len() ==> (#[trigger] entries[t]) == entries.drop_first()[t - 1]);
    }
}

/// If the entries before `i` miss `key` and entry `i` holds it, then `i` is
/// the index found.
pub proof fn lemma_key_index_found(entries: Seq<(Seq<char>, DatumView)>, key: Seq<char>, i: int)
    requires
        0 <= i < entries.len(),
        entries[i].0 == key,
        forall|t: int| 0 <= t < i ==> (#[trigger] entries[t]).0 != key,
    ensures
        key_index(entries, key) == i,
    decreases i,
{
    if i > 0 {
        lemma_key_index_found(entries.drop_first(), key, i - 1);
    }
}

/// If no entry holds `key`, nothing is found.
pub proof fn lemma_key_index_absent(entries: Seq<(Seq<char>, DatumView)>, key: Seq<char>)
    requires
        forall|t: int| 0 <= t < entries.len() ==> (#[trigger] entries[t]).0 != key,
    ensures
        key_index(entries, key) == -1,
    decreases entries.len(),
{
    if entries.len() > 0 {
        lemma_key_index_absent(entries.drop_first(), key);
    }
}

/// Updating one entry commutes with taking views.
pub proof fn lemma_entries_view_update(entries: Seq<(String, Datum)>, i: int, p: (String, Datum))
    requires
        0 <= i < entries.len(),
    ensures
        entries_view(entries.update(i, p)) == entries_view(entries).update(
            i,
            (p.0@, p.1.model()),
        ),
{
    lemma_entries_view_index(entries);
    lemma_entries_view_index(entries.update(i, p));
    assert(entries_view(entries.update(i, p)) =~= entries_view(entries).update(
        i,
        (p.0@, p.1.model()),
    ));
}

/// Appending one entry commutes with taking views.
pub proof fn lemma_entries_view_push(entries: Seq<(String, Datum)>, p: (String, Datum))
    ensures
        entries_view(entries.push(p)) == entries_view(entries).push((p.0@, p.1.model())),
{
    lemma_entries_view_index(entries);
    lemma_entries_view_index(entries.push(p));
    assert(entries_view(entries.push(p)) =~= entries_view(entries).push((p.0@, p.1.model())));
}

/// Appending one item commutes with taking views.
pub proof fn lemma_items_view_push(items: Seq<Datum>, d: Datum)
    ensures
        items_view(items.push(d)) == items_view(items).push(d.model()),
{
    lemma_items_view_index(items);
    lemma_items_view_index(items.push(d));
    assert(items_view(items.push(d)) =~= items_view(items).push(d.model()));
}

/// Binds `key` to `value` in an exec entry list, exactly as `obj_insert`
/// describes: an entry already holding the key is overwritten in place,
/// otherwise the pair is appended (so a repeated key means last write wins).
pub fn insert_entry(entries: &mut Vec<(String, Datum)>, key: String, value: Datum)
    ensures
        entries_view(final(entries)@) == obj_insert(
            entries_view(old(entries)@),
            key@,
            value.model(),
        ),
{
    let ghost pre = entries@;
    let ghost kv = (key@, value.model());
    proof {
        lemma_entries_view_index(pre);
    }
    let n = entries.len();
    let mut i: usize = 0;
    while i < n
        invariant
            i <= n,
            n == entries@.len(),
            entries@ == pre,
            pre == old(entries)@,
            kv == (key@, value.model()),
            entries_view(pre).len() == pre.len(),
            forall|t: int| 0 <= t < i ==> (#[trigger] entries_view(pre)[t]).0 != key@,
            forall|t: int|
                0 <= t < pre.len() ==> #[trigger] entries_view(pre)[t] == (
                pre[t].0@,
                pre[t].1.model(),
                ),
        decreases n - i,
    {
        let hit = {
            let pair = &entries[i];
            text_eq(&pair.0, key.as_str())
        };
        if hit {
            proof {
                lemma_key_index_found(entries_view(pre), key@, i as int);
            }
            let pair = (key, value);
            let ghost pv = pair;
            entries.set(i, pair);
            proof {
                lemma_entries_view_update(pre, i as int, pv);
                assert(entries_view(entries@) == entries_view(pre).update(i as int, kv));
            }
            return ;
        }
        i = i + 1;
    }
    proof {
        lemma_key_index_absent(entries_view(pre), key@);
    }
    entries.push((key, value));
    proof {
        lemma_entries_view_index(entries@);
        assert(entries_view(entries@) =~= entries_view(pre).push(kv));
    }
}

} // verus!
