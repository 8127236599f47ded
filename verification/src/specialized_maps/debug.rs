//! The `Debug` form of maps and sets.

use std::fmt::Debug;
use vstd::prelude::*;
use vstd::string::StringExecFns;

verus! {

/// The characters of each of the strings.
pub open spec fn texts(parts: Seq<String>) -> Seq<Seq<char>> {
    Seq::new(parts.len(), |i: int| parts[i]@)
}

/// The parts one after another, with the separator between every two of
/// them.
pub open spec fn joined(parts: Seq<Seq<char>>, separator: Seq<char>) -> Seq<char>
    decreases parts.len(),
{
    if parts.len() == 0 {
        Seq::empty()
    } else if parts.len() == 1 {
        parts[0]
    } else {
        joined(parts.drop_last(), separator) + separator + parts.last()
    }
}

/// The text of each entry: the text of its key, a colon, a space, and the
/// text of its value.
pub open spec fn entry_forms(keys: Seq<Seq<char>>, values: Seq<Seq<char>>) -> Seq<Seq<char>> {
    Seq::new(keys.len(), |i: int| keys[i] + seq![':', ' '] + values[i])
}

/// The text of a map whose keys and values have the given texts: the entries
/// separated by a comma and a space, between braces.
pub open spec fn map_form(keys: Seq<Seq<char>>, values: Seq<Seq<char>>) -> Seq<char> {
    seq!['{'] + joined(entry_forms(keys, values), seq![',', ' ']) + seq!['}']
}

/// The text of a list whose items have the given texts: the items separated
/// by a comma and a space, between square brackets.
pub open spec fn list_form(items: Seq<Seq<char>>) -> Seq<char> {
    seq!['['] + joined(items, seq![',', ' ']) + seq![']']
}

/// `text` is the text of a map of `n` entries, whatever the texts of its
/// keys and values are.
pub open spec fn is_map_form(text: Seq<char>, n: nat) -> bool {
    exists|keys: Seq<Seq<char>>, values: Seq<Seq<char>>|
        keys.len() == n && values.len() == n && text == #[trigger] map_form(keys, values)
}

/// `text` is the text of a list of `n` items, whatever the texts of its
/// items are.
pub open spec fn is_list_form(text: Seq<char>, n: nat) -> bool {
    exists|items: Seq<Seq<char>>| items.len() == n && text == #[trigger] list_form(items)
}

/// Formats a value with its `Debug` form, by `format!`. What the text is
/// depends on the `Debug` implementation of the type, so nothing is promised
/// of it.
#[verifier::external_body]
fn debug_text<T: Debug>(value: &T) -> String {
    format!("{value:?}")
}

/// The parts one after another, with the separator between every two of
/// them.
pub fn join(parts: &Vec<String>, separator: &str) -> (r: String)
    ensures
        r@ == joined(texts(parts@), separator@),
{
    let ghost all = texts(parts@);
    let mut out = String::new();
    let mut i: usize = 0;
    assert(all.subrange(0, 0) =~= Seq::<Seq<char>>::empty());
    while i < parts.len()
        invariant
            i <= parts@.len(),
            all == texts(parts@),
            out@ == joined(all.subrange(0, i as int), separator@),
        decreases parts@.len() - i,
    {
        let ghost before = out@;
        if i > 0 {
            out.append(separator);
        }
        out.append(parts[i].as_str());
        proof {
            let next = all.subrange(0, i + 1);
            assert(next.drop_last() =~= all.subrange(0, i as int));
            assert(next.last() == parts@[i as int]@);
            if i == 0 {
                assert(out@ =~= next[0]);
            } else {
                assert(out@ =~= before + separator@ + next.last());
            }
        }
        i += 1;
    }
    assert(all.subrange(0, parts@.len() as int) =~= all);
    out
}

/// The text of a map whose keys and values have the given texts.
pub fn map_text(keys: &Vec<String>, values: &Vec<String>) -> (r: String)
    requires
        keys@.len() == values@.len(),
    ensures
        r@ == map_form(texts(keys@), texts(values@)),
{
    let mut parts: Vec<String> = Vec::new();
    let mut i: usize = 0;
    while i < keys.len()
        invariant
            i <= keys@.len(),
            keys@.len() == values@.len(),
            parts@.len() == i,
            forall|j: int|
                0 <= j < i ==> (#[trigger] parts@[j])@ == entry_forms(
                    texts(keys@),
                    texts(values@),
                )[j],
        decreases keys@.len() - i,
    {
        let mut entry = String::new();
        entry.append(keys[i].as_str());
        entry.append(": ");
        entry.append(values[i].as_str());
        proof {
            reveal_strlit(": ");
            assert(": "@ =~= seq![':', ' ']);
            assert(entry@ =~= keys@[i as int]@ + seq![':', ' '] + values@[i as int]@);
        }
        parts.push(entry);
        i += 1;
    }
    assert(texts(parts@) =~= entry_forms(texts(keys@), texts(values@)));
    let inner = join(&parts, ", ");
    let mut out = String::new();
    out.append("{");
    out.append(inner.as_str());
    out.append("}");
    proof {
        reveal_strlit(", ");
        reveal_strlit("{");
        reveal_strlit("}");
        assert(", "@ =~= seq![',', ' ']);
        assert("{"@ =~= seq!['{']);
        assert("}"@ =~= seq!['}']);
        assert(out@ =~= seq!['{'] + inner@ + seq!['}']);
    }
    out
}

/// The text of a list whose items have the given texts.
pub fn list_text(items: &Vec<String>) -> (r: String)
    ensures
        r@ == list_form(texts(items@)),
{
    let inner = join(items, ", ");
    let mut out = String::new();
    out.append("[");
    out.append(inner.as_str());
    out.append("]");
    proof {
        reveal_strlit(", ");
        reveal_strlit("[");
        reveal_strlit("]");
        assert(", "@ =~= seq![',', ' ']);
        assert("["@ =~= seq!['[']);
        assert("]"@ =~= seq![']']);
        assert(out@ =~= seq!['['] + inner@ + seq![']']);
    }
    out
}

/// The entries in the form of a map: each key and value in its `Debug` form
/// with a colon between them, the entries separated by commas, all between
/// braces.
pub fn debug_map_string<K: Debug, V: Debug>(entries: &[(K, V)]) -> (r: String)
    ensures
        is_map_form(r@, entries@.len()),
{
    let mut keys: Vec<String> = Vec::new();
    let mut values: Vec<String> = Vec::new();
    let mut i: usize = 0;
    while i < entries.len()
        invariant
            i <= entries@.len(),
            keys@.len() == i,
            values@.len() == i,
        decreases entries@.len() - i,
    {
        keys.push(debug_text(&entries[i].0));
        values.push(debug_text(&entries[i].1));
        i += 1;
    }
    let r = map_text(&keys, &values);
    assert(r@ == map_form(texts(keys@), texts(values@)));
    r
}

/// The items in the form of a list: each item in its `Debug` form, the items
/// separated by commas, all between square brackets.
pub fn debug_list_string<T: Debug>(entries: &[(T, ())]) -> (r: String)
    ensures
        is_list_form(r@, entries@.len()),
{
    let mut items: Vec<String> = Vec::new();
    let mut i: usize = 0;
    while i < entries.len()
        invariant
            i <= entries@.len(),
            items@.len() == i,
        decreases entries@.len() - i,
    {
        items.push(debug_text(&entries[i].0));
        i += 1;
    }
    let r = list_text(&items);
    assert(r@ == list_form(texts(items@)));
    r
}

} // verus!
