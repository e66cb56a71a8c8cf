use vstd::prelude::*;
use crate::assoc::{Assoc, keys_unique, assoc_put, lemma_put_unique};
use crate::properties::{Properties, all_derived};
use crate::value::{Value, ValueView, value_of};

verus! {

/// The text that a byte sequence encodes in UTF-8, if it is valid UTF-8.
pub uninterp spec fn utf8_decoded(b: Seq<u8>) -> Option<Seq<char>>;

/// Whether a text is a JSON document.
pub uninterp spec fn json_accepts(t: Seq<char>) -> bool;

/// Relies on `String::from_utf8`: the text, where the bytes are valid UTF-8.
#[verifier::external_body]
fn utf8_text(b: Vec<u8>) -> (r: Option<String>)
    ensures
        r is None ==> utf8_decoded(b@) is None,
        r matches Some(s) ==> utf8_decoded(b@) == Some(s@),
{
    String::from_utf8(b).ok()
}

/// The (name, textual form) pairs of the member named `key` of the JSON
/// document `t`, in the object's order; empty where that member is missing
/// or is no object.
pub uninterp spec fn json_member_texts(t: Seq<char>, key: Seq<char>) -> Assoc<Seq<char>>;

/// Relies on `json::parse`, `JsonValue`'s `Index<&str>`, `JsonValue::entries`
/// and `JsonValue`'s `Display`: where `text` is JSON, the members of its
/// member `key` (none where that is no object), each name with the textual
/// form of its value (a string's content, a number's decimal text, `true` or
/// `false`).
#[verifier::external_body]
fn json_member_pairs(text: &str, key: &str) -> (r: Option<Vec<(String, String)>>)
    ensures
        r is Some <==> json_accepts(text@),
        r matches Some(v) ==> pair_views(v@) == json_member_texts(text@, key@),
{
    json::parse(text).ok().map(
        |doc| doc[key].entries().map(|(k, v)| (k.to_string(), v.to_string())).collect(),
    )
}

/// The (name, text) pairs of the top-level `properties` member of a
/// document.
pub open spec fn property_texts(t: Seq<char>) -> Assoc<Seq<char>> {
    json_member_texts(t, "properties"@)
}

/// The property map read from (name, text) pairs in order: each text gives
/// a value, and a later pair of a name replaces an earlier one.
pub open spec fn decoded(es: Assoc<Seq<char>>) -> Assoc<ValueView>
    decreases es.len(),
{
    if es.len() == 0 {
        Seq::empty()
    } else {
        assoc_put(decoded(es.drop_last()), es.last().0, value_of(es.last().1))
    }
}

pub open spec fn pair_views(v: Seq<(String, String)>) -> Assoc<Seq<char>> {
    v.map_values(|e: (String, String)| (e.0@, e.1@))
}

/// Every decoded value keeps the server's text as its string facet, with
/// the boolean and integer facets derived from it, and every name of the
/// result was given with that text.
pub proof fn lemma_decoded_round_trip(es: Assoc<Seq<char>>)
    ensures
        keys_unique(decoded(es)),
        all_derived(decoded(es)),
        forall|i: int| 0 <= i < decoded(es).len() ==> exists|j: int| 0 <= j < es.len()
            && #[trigger] es[j] == (decoded(es)[i].0, (#[trigger] decoded(es)[i]).1.2),
    decreases es.len(),
{
    if es.len() > 0 {
        let prev = es.drop_last();
        lemma_decoded_round_trip(prev);
        let s = decoded(prev);
        let k = es.last().0;
        let v = value_of(es.last().1);
        lemma_put_unique(s, k, v);
        let r = decoded(es);
        assert forall|i: int| 0 <= i < r.len() implies (#[trigger] r[i]).1 == value_of(r[i].1.2) && exists|j: int| 0 <= j < es.len()
            && #[trigger] es[j] == (r[i].0, r[i].1.2) by {
            if r[i] == (k, v) {
                assert(es[es.len() - 1] == (r[i].0, r[i].1.2));
            } else {
                assert(r[i] == s[i]);
                let j = choose|j: int| 0 <= j < prev.len() && #[trigger] prev[j] == (s[i].0, s[i].1.2);
                assert(es[j] == prev[j]);
            }
        }
    }
}

/// The property map for (name, text) pairs as the server gave them.
pub fn decode_entries(entries: &Vec<(String, String)>) -> (r: Properties)
    ensures
        r.wf(),
        r@ == decoded(pair_views(entries@)),
{
    let mut props = Properties::new();
    let mut i: usize = 0;
    while i < entries.len()
        invariant
            i <= entries@.len(),
            props.wf(),
            props@ == decoded(pair_views(entries@).take(i as int)),
        decreases entries@.len() - i,
    {
        let e = &entries[i];
        let v = Value::from_text(e.1.as_str());
        props.insert(e.0.clone(), v);
        assert(pair_views(entries@).take(i + 1).drop_last() == pair_views(entries@).take(i as int));
        i = i + 1;
    }
    assert(pair_views(entries@).take(entries@.len() as int) == pair_views(entries@));
    props
}

/// Decodes a response body: where it is UTF-8 text holding a JSON document,
/// the members of its top-level `properties` object become the property map
/// (empty where that member is missing or no object); `None` otherwise.
pub fn decode_body(body: Vec<u8>) -> (r: Option<Properties>)
    ensures
        r is Some <==> (utf8_decoded(body@) matches Some(t) && json_accepts(t)),
        r matches Some(p) ==> p.wf() && all_derived(p@),
        r matches Some(p) ==> (utf8_decoded(body@) matches Some(t) && p@ == decoded(property_texts(t))),
{
    let text = match utf8_text(body) {
        Some(t) => t,
        None => return None,
    };
    let pairs = match json_member_pairs(text.as_str(), "properties") {
        Some(p) => p,
        None => return None,
    };
    let props = decode_entries(&pairs);
    proof {
        lemma_decoded_round_trip(pair_views(pairs@));
    }
    Some(props)
}

} // verus!
