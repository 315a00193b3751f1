//! The order names of one FIX connection.

use std::collections::HashMap;

use vstd::prelude::*;
use vstd::utf8::valid_utf8;

use crate::bytes::to_vec;
use crate::codec::fix_model::{no_names, NamesView};
use crate::codec::text_map::TextMap;

verus! {

broadcast use vstd::std_specs::hash::group_hash_axioms;

/// The names of one connection: ClOrdID to reference, and back.
pub struct Names {
    ids: TextMap<u32>,
    refs: HashMap<u32, Vec<u8>>,
    last_ref: Option<u32>,
}

impl View for Names {
    type V = NamesView;

    closed spec fn view(&self) -> NamesView {
        NamesView {
            ids: self.ids@,
            refs: self.refs@.map_values(|v: Vec<u8>| v@),
            last_ref: self.last_ref,
        }
    }
}

impl Names {
    /// No names at all.
    pub fn new() -> (r: Self)
        ensures
            r@ == no_names(),
    {
        let r = Self { ids: TextMap::new(), refs: HashMap::new(), last_ref: None };
        assert(r@.refs =~= Map::<u32, Seq<u8>>::empty());
        r
    }

    /// The reference that a ClOrdID stands for.
    pub fn lookup(&self, text: &[u8]) -> (r: Option<u32>)
        ensures
            match r {
                Some(user_ref) => self@.ids.contains_key(text@) && self@.ids[text@] == user_ref,
                None => !self@.ids.contains_key(text@),
            },
    {
        self.ids.get(text)
    }

    /// The ClOrdID that first named an order.
    pub fn name(&self, user_ref: u32) -> (r: Option<&Vec<u8>>)
        ensures
            match r {
                Some(text) => self@.refs.contains_key(user_ref) && self@.refs[user_ref] == text@,
                None => !self@.refs.contains_key(user_ref),
            },
    {
        self.refs.get(&user_ref)
    }

    /// The reference that the last accepted request was about.
    pub fn last(&self) -> (r: Option<u32>)
        ensures
            r == self@.last_ref,
    {
        self.last_ref
    }

    /// Makes `text` a name of `user_ref`.
    pub fn alias(&mut self, text: &[u8], user_ref: u32)
        requires
            valid_utf8(text@),
        ensures
            final(self)@ == (NamesView {
                ids: old(self)@.ids.insert(text@, user_ref),
                ..old(self)@
            }),
    {
        self.ids.insert(text, user_ref);
    }

    /// Makes `text` the name that `user_ref` is reported under.
    pub fn remember(&mut self, text: &[u8], user_ref: u32)
        ensures
            final(self)@ == (NamesView {
                refs: old(self)@.refs.insert(user_ref, text@),
                ..old(self)@
            }),
    {
        self.refs.insert(user_ref, to_vec(text));
        assert(self@.refs =~= old(self)@.refs.insert(user_ref, text@));
    }

    /// Notes the reference that a request was about.
    pub fn touch(&mut self, user_ref: u32)
        ensures
            final(self)@ == (NamesView { last_ref: Some(user_ref), ..old(self)@ }),
    {
        self.last_ref = Some(user_ref);
    }
}

} // verus!
