//! Names for the ids of the binary encoding. The names are not part of a
//! save: whoever reads one brings them along.

use std::collections::HashMap;
use vstd::prelude::*;
use vstd::slice::slice_to_vec;
use vstd::string::StringSliceAdditionalSpecFns;

verus! {

broadcast use vstd::std_specs::hash::group_hash_axioms;

/// Resolves binary 16bit tokens to field names.
pub trait TokenResolver {
    /// The names that the resolver knows, by token.
    spec fn names(&self) -> Map<u16, Seq<u8>>;

    /// Return the field name of the 16bit token if found.
    fn resolve(&self, token: u16) -> (r: Option<&[u8]>)
        ensures
            match r {
                Some(name) => self.names().contains_key(token) && name@ == self.names()[token],
                None => !self.names().contains_key(token),
            },
    ;

    /// Return whether `resolve` will always return `None`.
    fn is_empty(&self) -> (r: bool)
        ensures
            r == (self.names() == Map::<u16, Seq<u8>>::empty()),
    ;
}

/// Builtin token resolver: it knows no name, as no names are distributed
/// with this library.
#[derive(Debug, Clone, Copy, Default)]
pub struct EnvTokens;

impl TokenResolver for EnvTokens {
    open spec fn names(&self) -> Map<u16, Seq<u8>> {
        Map::empty()
    }

    fn resolve(&self, token: u16) -> (r: Option<&[u8]>) {
        None
    }

    fn is_empty(&self) -> (r: bool) {
        true
    }
}

/// A token resolver that is filled name by name.
pub struct TokenTable {
    entries: HashMap<u16, Vec<u8>>,
}

impl TokenTable {
    /// A table without names.
    pub fn new() -> (r: TokenTable)
        ensures
            r.names() == Map::<u16, Seq<u8>>::empty(),
    {
        let table = TokenTable { entries: HashMap::new() };
        assert(table.names() =~= Map::<u16, Seq<u8>>::empty());
        table
    }

    /// Gives `token` the name `name`, in place of the name it may have had.
    pub fn insert(&mut self, token: u16, name: &str)
        ensures
            final(self).names() == old(self).names().insert(token, name.spec_bytes()),
    {
        let bytes: Vec<u8> = slice_to_vec(name.as_bytes());
        self.entries.insert(token, bytes);
        assert(self.names() =~= old(self).names().insert(token, name.spec_bytes()));
    }

    /// The number of tokens that have a name.
    pub fn len(&self) -> (r: usize)
        ensures
            r == self.names().dom().len(),
    {
        assert(self.names().dom() =~= self.entries@.dom());
        self.entries.len()
    }
}

impl TokenResolver for TokenTable {
    closed spec fn names(&self) -> Map<u16, Seq<u8>> {
        Map::new(|k: u16| self.entries@.contains_key(k), |k: u16| self.entries@[k]@)
    }

    fn resolve(&self, token: u16) -> (r: Option<&[u8]>) {
        match self.entries.get(&token) {
            Some(name) => Some(name.as_slice()),
            None => None,
        }
    }

    fn is_empty(&self) -> (r: bool) {
        proof {
            assert(self.names().dom() =~= self.entries@.dom());
            if self.entries@.len() == 0 {
                assert(self.entries@.dom().finite());
                self.entries@.dom().lemma_len0_is_empty();
                assert(self.names() =~= Map::<u16, Seq<u8>>::empty());
            } else {
                assert(self.names().dom().len() != 0);
            }
        }
        self.entries.is_empty()
    }
}

} // verus!
