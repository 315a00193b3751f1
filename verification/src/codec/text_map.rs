//! A map from texts to small values.

use vstd::hash_map::StringHashMap;
use vstd::prelude::*;
use vstd::utf8::{
    decode_utf8, decode_utf8_encode_utf8, encode_utf8, encode_utf8_decode_utf8, valid_utf8,
};

use crate::text::from_utf8;

verus! {

/// What texts stand for. A text is given by its bytes.
#[verifier::reject_recursive_types(V)]
pub struct TextMap<V> {
    map: StringHashMap<V>,
}

/// A map from texts, as a map from their bytes.
pub open spec fn by_bytes<V>(map: Map<Seq<char>, V>) -> Map<Seq<u8>, V> {
    Map::new(
        |t: Seq<u8>| valid_utf8(t) && map.contains_key(decode_utf8(t)),
        |t: Seq<u8>| map[decode_utf8(t)],
    )
}

impl<V> View for TextMap<V> {
    type V = Map<Seq<u8>, V>;

    closed spec fn view(&self) -> Map<Seq<u8>, V> {
        by_bytes(self.map@)
    }
}

proof fn lemma_by_bytes_insert<V>(map: Map<Seq<char>, V>, text: Seq<char>, value: V)
    ensures
        by_bytes(map.insert(text, value)) == by_bytes(map).insert(encode_utf8(text), value),
{
    encode_utf8_decode_utf8(text);
    vstd::utf8::encode_utf8_valid_utf8(text);
    let a = by_bytes(map.insert(text, value));
    let b = by_bytes(map).insert(encode_utf8(text), value);
    assert forall|t: Seq<u8>| #[trigger] a.contains_key(t) == b.contains_key(t) by {
        if valid_utf8(t) {
            decode_utf8_encode_utf8(t);
        }
    }
    assert forall|t: Seq<u8>| #[trigger] a.contains_key(t) implies a[t] == b[t] by {
        decode_utf8_encode_utf8(t);
    }
    assert(a =~= b);
}

impl<V: Copy> TextMap<V> {
    /// Nothing.
    pub fn new() -> (r: Self)
        ensures
            r@ == Map::<Seq<u8>, V>::empty(),
    {
        let r = Self { map: StringHashMap::new() };
        assert(r@ =~= Map::<Seq<u8>, V>::empty());
        r
    }

    /// What a text stands for. Bytes that are no text stand for nothing.
    pub fn get(&self, text: &[u8]) -> (r: Option<V>)
        ensures
            match r {
                Some(value) => self@.contains_key(text@) && self@[text@] == value,
                None => !self@.contains_key(text@),
            },
    {
        let key = match from_utf8(text) {
            Some(key) => key,
            None => return None,
        };
        proof {
            encode_utf8_decode_utf8(key@);
        }
        match self.map.get(key) {
            Some(value) => Some(*value),
            None => None,
        }
    }

    /// Makes a text stand for a value. Bytes that are no text are passed over.
    pub fn insert(&mut self, text: &[u8], value: V)
        ensures
            final(self)@ == (if valid_utf8(text@) {
                old(self)@.insert(text@, value)
            } else {
                old(self)@
            }),
    {
        if let Some(key) = from_utf8(text) {
            proof {
                lemma_by_bytes_insert(self.map@, key@, value);
            }
            self.map.insert(key.to_owned(), value);
        }
    }
}

} // verus!
