//! The multimap written out as text: `{`, the entries separated by `, `, `}`, where
//! an entry is the text of a key, `: `, and the text of its values as a list.

use std::fmt::Debug;
use vstd::prelude::*;
use vstd::string::StringExecFns;

verus! {

/// The text of a list of values as `Debug` writes a slice of them.
pub uninterp spec fn list_text(vs: Seq<i64>) -> Seq<char>;

/// `Debug` for a slice of `i64`: the text depends on the values alone.
#[verifier::external_body]
pub(crate) fn values_text(vs: &[i64]) -> (s: String)
    ensures
        s@ == list_text(vs@),
{
    format!("{:?}", vs)
}

/// `Debug` for a key. The key's type decides what is written, so nothing is stated
/// of the text.
#[verifier::external_body]
pub(crate) fn key_text<K: Debug>(k: &K) -> (s: String) {
    format!("{:?}", k)
}

/// The entries of a map written one after another: each as the text of its key,
/// `: `, and the text of its values, with `, ` between two entries.
pub open spec fn entries_text(entries: Seq<(Seq<char>, Seq<char>)>) -> Seq<char>
    decreases entries.len(),
{
    if entries.len() == 0 {
        Seq::empty()
    } else {
        let between = if entries.len() > 1 {
            seq![',', ' ']
        } else {
            Seq::empty()
        };
        entries_text(entries.drop_last()) + between + entries.last().0 + seq![':', ' ']
            + entries.last().1
    }
}

/// A map written out: its entries between `{` and `}`.
pub open spec fn map_text(entries: Seq<(Seq<char>, Seq<char>)>) -> Seq<char> {
    seq!['{'] + entries_text(entries) + seq!['}']
}

/// The characters of each pair of strings.
pub open spec fn texts_of(entries: Seq<(String, String)>) -> Seq<(Seq<char>, Seq<char>)> {
    Seq::new(entries.len(), |i: int| (entries[i].0@, entries[i].1@))
}

/// `text` is the map `m` written out with its keys in the order `keys`, the key
/// `keys[i]` written as `names[i]`: every key of `m` stands in `keys` once, and each
/// entry holds the values of its key as a list, in their order.
pub open spec fn is_rendering<K>(
    m: Map<K, Seq<i64>>,
    keys: Seq<K>,
    names: Seq<Seq<char>>,
    text: Seq<char>,
) -> bool {
    &&& keys.len() == m.len()
    &&& names.len() == keys.len()
    &&& keys.no_duplicates()
    &&& forall|i: int| 0 <= i < keys.len() ==> m.contains_key(#[trigger] keys[i])
    &&& text == map_text(Seq::new(keys.len(), |i: int| (names[i], list_text(m[keys[i]]))))
}

/// `text` is the map `m` written out, with its keys in some order and each key
/// written in some way.
pub open spec fn renders<K>(m: Map<K, Seq<i64>>, text: Seq<char>) -> bool {
    exists|keys: Seq<K>, names: Seq<Seq<char>>| #[trigger] is_rendering(m, keys, names, text)
}

/// Writes a map out from the texts of its keys and of their values.
pub fn map_string(entries: &Vec<(String, String)>) -> (s: String)
    ensures
        s@ == map_text(texts_of(entries@)),
{
    let ghost texts = texts_of(entries@);
    let mut s = String::new();
    s.append("{");
    proof {
        reveal_strlit("{");
        assert(s@ =~= seq!['{'] + entries_text(texts.take(0)));
    }
    let mut i: usize = 0;
    while i < entries.len()
        invariant
            i <= entries@.len(),
            texts == texts_of(entries@),
            s@ == seq!['{'] + entries_text(texts.take(i as int)),
        decreases entries@.len() - i,
    {
        let ghost before = s@;
        if i > 0 {
            s.append(", ");
        }
        s.append(entries[i].0.as_str());
        s.append(": ");
        s.append(entries[i].1.as_str());
        proof {
            reveal_strlit(", ");
            reveal_strlit(": ");
            let upto = texts.take(i as int + 1);
            assert(upto.drop_last() =~= texts.take(i as int));
            assert(upto.last() == texts[i as int]);
            let between = if i > 0 {
                seq![',', ' ']
            } else {
                Seq::<char>::empty()
            };
            assert(", "@ =~= seq![',', ' ']);
            assert(": "@ =~= seq![':', ' ']);
            assert(s@ =~= before + between + texts[i as int].0 + seq![':', ' ']
                + texts[i as int].1);
            assert(s@ =~= seq!['{'] + entries_text(upto));
        }
        i = i + 1;
    }
    s.append("}");
    proof {
        reveal_strlit("}");
        assert(texts.take(entries@.len() as int) =~= texts);
        assert(s@ =~= map_text(texts));
    }
    s
}

} // verus!
