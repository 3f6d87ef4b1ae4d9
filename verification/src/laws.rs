//! Global laws of the library: a parsed document binds each key once;
//! looking keys up reproduces the document's mapping exactly; and parsing is
//! a function of the source text alone.

use crate::json::Json;
use crate::lexer::spec_lex;
use crate::parser::lemma_parse_value_consumes;
use crate::parser::spec_parse;
use crate::parser::spec_parse_object;
use crate::parser::spec_parse_array;
use crate::parser::spec_parse_array_body;
use crate::parser::spec_parse_value;
use crate::parser::ParsePhase;
use crate::token::LexicalTokenView;
use crate::token::ParseErrorView;
use crate::value::key_index;
use crate::value::keys_unique;
use crate::value::lemma_key_index_found;
use crate::value::lemma_key_index_props;
use crate::value::obj_as_map;
use crate::value::obj_insert;
use crate::value::lemma_wf_entries_index;
use crate::value::lemma_wf_items_index;
use crate::value::obj_lookup;
use crate::value::wf_entries;
use crate::value::wf_items;
use crate::value::wf_value;
use crate::value::DatumView;
use vstd::prelude::*;

verus! {

/// Binding a key never duplicates keys: an entry list with unique keys
/// still has unique keys after `obj_insert`.
pub proof fn lemma_obj_insert_preserves_unique(
    entries: Seq<(Seq<char>, DatumView)>,
    key: Seq<char>,
    value: DatumView,
)
    requires
        keys_unique(entries),
    ensures
        keys_unique(obj_insert(entries, key, value)),
{
    lemma_key_index_props(entries, key);
    let i = key_index(entries, key);
    if i >= 0 {
        let updated = entries.update(i, (key, value));
        assert forall|s: int, t: int|
            0 <= s < t < updated.len() implies (#[trigger] updated[s]).0 != (
        #[trigger] updated[t]).0 by {
            assert(entries[i].0 == key);
            assert(updated[s].0 == entries[s].0);
            assert(updated[t].0 == entries[t].0);
        }
    } else {
        let pushed = entries.push((key, value));
        assert forall|s: int, t: int|
            0 <= s < t < pushed.len() implies (#[trigger] pushed[s]).0 != (
        #[trigger] pushed[t]).0 by {
            if t < entries.len() {
                assert(entries[s].0 != entries[t].0);
            } else {
                assert(pushed[t].0 == key);
                assert(pushed[s] == entries[s]);
            }
        }
    }
}

/// Binding a well-formed value keeps every entry's value well formed.
pub proof fn lemma_obj_insert_preserves_wf(
    entries: Seq<(Seq<char>, DatumView)>,
    key: Seq<char>,
    value: DatumView,
)
    requires
        wf_entries(entries),
        wf_value(value),
    ensures
        wf_entries(obj_insert(entries, key, value)),
{
    lemma_key_index_props(entries, key);
    lemma_wf_entries_index(entries);
    lemma_wf_entries_index(obj_insert(entries, key, value));
}

/// A parsed value is well formed: each of its objects binds a key once.
pub proof fn lemma_parse_value_wf(ts: Seq<LexicalTokenView>)
    ensures
        spec_parse_value(ts) matches Ok(p) ==> wf_value(p.0),
    decreases ts.len(), 0int,
{
    if ts.len() > 0 {
        let rest = ts.drop_first();
        match ts[0].token {
            crate::token::TokenView::OpenCurly => {
                lemma_parse_object_wf(rest, ParsePhase::FindKeyOrEnd, None, Seq::empty());
            },
            crate::token::TokenView::OpenSquare => {
                lemma_parse_array_wf(rest);
            },
            _ => {},
        }
    }
}

/// The object machine keeps keys unique and values well formed: started
/// from such an entry list, whatever it returns is one too.
pub proof fn lemma_parse_object_wf(
    ts: Seq<LexicalTokenView>,
    phase: ParsePhase,
    key: Option<Seq<char>>,
    acc: Seq<(Seq<char>, DatumView)>,
)
    requires
        keys_unique(acc),
        wf_entries(acc),
    ensures
        spec_parse_object(ts, phase, key, acc) matches Ok(p) ==> keys_unique(p.0) && wf_entries(
            p.0,
        ),
    decreases ts.len(), 1int,
{
    let rest = ts.drop_first();
    match phase {
        ParsePhase::FindKeyOrEnd | ParsePhase::FindKey => {
            if ts.len() > 0 {
                match ts[0].token {
                    crate::token::TokenView::String(k) => {
                        lemma_parse_object_wf(rest, ParsePhase::FindColon, Some(k), acc);
                    },
                    _ => {},
                }
            }
        },
        ParsePhase::FindColon => {
            if ts.len() > 0 && ts[0].token is Colon {
                lemma_parse_object_wf(rest, ParsePhase::FindValue, key, acc);
            }
        },
        ParsePhase::FindValue => {
            lemma_parse_value_consumes(ts);
            lemma_parse_value_wf(ts);
            match spec_parse_value(ts) {
                Ok(p) => {
                    lemma_obj_insert_preserves_unique(acc, key->0, p.0);
                    lemma_obj_insert_preserves_wf(acc, key->0, p.0);
                    lemma_parse_object_wf(
                        p.1,
                        ParsePhase::FindCommaOrEnd,
                        None,
                        obj_insert(acc, key->0, p.0),
                    );
                },
                Err(_) => {},
            }
        },
        ParsePhase::FindCommaOrEnd => {
            if ts.len() > 0 && ts[0].token is Comma {
                lemma_parse_object_wf(rest, ParsePhase::FindKey, None, acc);
            }
        },
    }
}

/// A parsed array holds well-formed items only.
pub proof fn lemma_parse_array_wf(ts: Seq<LexicalTokenView>)
    ensures
        spec_parse_array(ts) matches Ok(p) ==> wf_items(p.0),
    decreases ts.len(), 2int,
{
    if !(ts.len() > 0 && ts[0].token is CloseSquare) {
        lemma_parse_array_body_wf(ts, ParsePhase::FindValue, Seq::empty());
    }
}

/// As `lemma_parse_array_wf`, for the body machine.
pub proof fn lemma_parse_array_body_wf(
    ts: Seq<LexicalTokenView>,
    phase: ParsePhase,
    acc: Seq<DatumView>,
)
    requires
        wf_items(acc),
    ensures
        spec_parse_array_body(ts, phase, acc) matches Ok(p) ==> wf_items(p.0),
    decreases ts.len(), 1int,
{
    match phase {
        ParsePhase::FindValue => {
            lemma_parse_value_consumes(ts);
            lemma_parse_value_wf(ts);
            match spec_parse_value(ts) {
                Ok(p) => {
                    lemma_wf_items_index(acc);
                    lemma_wf_items_index(acc.push(p.0));
                    lemma_parse_array_body_wf(p.1, ParsePhase::FindCommaOrEnd, acc.push(p.0));
                },
                Err(_) => {},
            }
        },
        ParsePhase::FindCommaOrEnd => {
            if ts.len() > 0 && ts[0].token is Comma {
                lemma_parse_array_body_wf(ts.drop_first(), ParsePhase::FindValue, acc);
            }
        },
        _ => {},
    }
}

/// On an entry list with unique keys, reading the list as a map agrees with
/// `obj_lookup` (first match — here the only match): a key is in the map
/// exactly when the lookup finds it, and then both give the same value.
pub proof fn lemma_lookup_agrees_with_mapping(
    entries: Seq<(Seq<char>, DatumView)>,
    key: Seq<char>,
)
    requires
        keys_unique(entries),
    ensures
        obj_as_map(entries).contains_key(key) <==> obj_lookup(entries, key) is Some,
        obj_as_map(entries).contains_key(key) ==> obj_lookup(entries, key) == Some(
            obj_as_map(entries)[key],
        ),
    decreases entries.len(),
{
    lemma_key_index_props(entries, key);
    if entries.len() > 0 {
        let n = entries.len() as int;
        let dl = entries.drop_last();
        let last = entries.last();
        assert(forall|t: int| 0 <= t < n - 1 ==> #[trigger] dl[t] == entries[t]);
        lemma_lookup_agrees_with_mapping(dl, key);
        lemma_key_index_props(dl, key);
        if last.0 == key {
            lemma_key_index_found(entries, key, n - 1);
        } else {
            let i = key_index(entries, key);
            let j = key_index(dl, key);
            if i >= 0 {
                // the holder is not the last entry, so the shorter list
                // finds the same (unique) holder
                assert(entries[i].0 == key);
                assert(i < n - 1);
                lemma_key_index_found(dl, key, i);
            }
            if j >= 0 {
                assert(dl[j].0 == key);
                lemma_key_index_found(entries, key, j);
            }
        }
    }
}

/// A successfully parsed document binds each key at most once, and looking
/// any key up in its root entries — as `Json::get` does — yields exactly
/// the value the document's mapping binds it to, and nothing for any other
/// key: the parsed tree reproduces every key/value pair of the document.
pub proof fn lemma_parse_reproduces_pairs(
    src: Seq<char>,
    m: Seq<(Seq<char>, DatumView)>,
    key: Seq<char>,
)
    requires
        spec_parse(src) == Ok::<Seq<(Seq<char>, DatumView)>, ParseErrorView>(m),
    ensures
        keys_unique(m),
        obj_as_map(m).contains_key(key) <==> obj_lookup(m, key) is Some,
        obj_as_map(m).contains_key(key) ==> obj_lookup(m, key) == Some(obj_as_map(m)[key]),
{
    lemma_parse_tree_well_formed(src, m);
    lemma_lookup_agrees_with_mapping(m, key);
}

/// Everywhere in a successfully parsed tree — at the root and inside every
/// nested object — each key is bound at most once.
pub proof fn lemma_parse_tree_well_formed(src: Seq<char>, m: Seq<(Seq<char>, DatumView)>)
    requires
        spec_parse(src) == Ok::<Seq<(Seq<char>, DatumView)>, ParseErrorView>(m),
    ensures
        keys_unique(m),
        wf_entries(m),
{
    match spec_lex(src) {
        Ok(ts) => {
            lemma_parse_object_wf(ts.drop_first(), ParsePhase::FindKeyOrEnd, None, Seq::empty());
        },
        Err(_) => {},
    }
}

/// Parsing is a function of the source text alone: two documents parsed
/// from the same text hold the same root — structurally equal trees, and
/// equal as key-to-value maps, so insertion order plays no part.
pub proof fn lemma_parse_deterministic(a: Json, b: Json, src: Seq<char>)
    requires
        a.parsed_from(src),
        b.parsed_from(src),
    ensures
        a.root_view() == b.root_view(),
        a.root_view() matches Some(ma) ==> b.root_view() matches Some(mb) && obj_as_map(ma)
            == obj_as_map(mb),
{
}

} // verus!

