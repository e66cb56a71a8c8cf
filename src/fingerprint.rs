use vstd::prelude::*;
use crypto::digest::Digest;
use crypto::sha1::Sha1;
use crate::assoc::Assoc;
use crate::headers::Headers;

verus! {

/// The lowercase hex SHA-1 digest of the UTF-8 encoding of a text.
pub uninterp spec fn sha1_hex(text: Seq<char>) -> Seq<char>;

pub open spec fn is_lower_hex(c: char) -> bool {
    ('0' <= c && c <= '9') || ('a' <= c && c <= 'f')
}

/// Whether `t` is a SHA-1 digest written as 40 lowercase hex digits.
pub open spec fn is_digest_text(t: Seq<char>) -> bool {
    t.len() == 40 && forall|i: int| 0 <= i < t.len() ==> is_lower_hex(#[trigger] t[i])
}

/// Relies on rust-crypto's `Sha1` through its `Digest` trait (`new`,
/// `input_str`, `result_str`): a fresh state fed `text` gives the hex digest
/// of its UTF-8 bytes, two lowercase hex digits for each of the
/// twenty bytes.
#[verifier::external_body]
fn sha1_hex_of(text: &str) -> (r: String)
    ensures
        r@ == sha1_hex(text@),
        is_digest_text(r@),
{
    let mut state = Sha1::new();
    state.input_str(text);
    state.result_str()
}

/// The text that is digested: each header's name, then its value, in the
/// store's order.
pub open spec fn header_text(s: Assoc<Seq<char>>) -> Seq<char>
    decreases s.len(),
{
    if s.len() == 0 {
        Seq::empty()
    } else {
        header_text(s.drop_last()) + s.last().0 + s.last().1
    }
}

/// The cache key of a header store.
pub open spec fn fingerprint_of(s: Assoc<Seq<char>>) -> Seq<char> {
    sha1_hex(header_text(s))
}

/// The digest of the headers, used as the cache key.
pub fn fingerprint(h: &Headers) -> (r: String)
    ensures
        r@ == fingerprint_of(h@),
        is_digest_text(r@),
{
    let mut text = String::new();
    let mut i: usize = 0;
    while i < h.len()
        invariant
            i <= h@.len(),
            text@ == header_text(h@.take(i as int)),
        decreases h@.len() - i,
    {
        let (k, v) = h.entry(i);
        text.append(k.as_str());
        text.append(v.as_str());
        assert(h@.take(i + 1).drop_last() == h@.take(i as int));
        i = i + 1;
    }
    assert(h@.take(h@.len() as int) == h@);
    sha1_hex_of(text.as_str())
}

/// The fingerprint is a function of the concatenated text alone: stores
/// whose names and values, read in order, spell the same text have the same
/// fingerprint.
pub proof fn lemma_fingerprint_follows_text(a: Assoc<Seq<char>>, b: Assoc<Seq<char>>)
    requires
        header_text(a) == header_text(b),
    ensures
        fingerprint_of(a) == fingerprint_of(b),
{
}

} // verus!
