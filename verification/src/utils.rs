//! Small helpers: adjusting the case of a text's first letter, and inserting
//! into or removing from hash maps and sets where the caller knows whether the
//! key is there.

use crate::chars::{char_lowercase, char_uppercase, join_chars, to_lowercase, to_uppercase};
use std::collections::{HashMap, HashSet};
use std::hash::{BuildHasher, Hash};
use vstd::prelude::*;
use vstd::std_specs::hash::{builds_valid_hashers, obeys_key_model};

verus! {

/// The text with its first character mapped to lowercase.
pub open spec fn spec_lowercase_first_letter(s: Seq<char>) -> Seq<char> {
    if s.len() == 0 {
        Seq::empty()
    } else {
        char_lowercase(s[0]) + s.skip(1)
    }
}

/// The text with its first character mapped to uppercase.
pub open spec fn spec_uppercase_first_letter(s: Seq<char>) -> Seq<char> {
    if s.len() == 0 {
        Seq::empty()
    } else {
        char_uppercase(s[0]) + s.skip(1)
    }
}

/// Appends the characters of the text from the index on.
fn push_rest(out: &mut Vec<char>, s: &str, from: usize)
    requires
        from <= s@.len(),
    ensures
        final(out)@ == old(out)@ + s@.skip(from as int),
{
    let n = s.unicode_len();
    let mut i: usize = from;
    while i < n
        invariant
            n == s@.len(),
            from <= i <= n,
            out@ == old(out)@ + s@.subrange(from as int, i as int),
        decreases n - i,
    {
        out.push(s.get_char(i));
        i = i + 1;
        proof {
            assert(out@ =~= old(out)@ + s@.subrange(from as int, i as int));
        }
    }
    proof {
        assert(s@.subrange(from as int, n as int) =~= s@.skip(from as int));
    }
}

/// Adjusting the case of the first letter of a text.
pub trait AdjustCasingOfFirstLetter {
    fn lowercase_first_letter(&self) -> String;

    fn uppercase_first_letter(&self) -> String;
}

impl AdjustCasingOfFirstLetter for str {
    fn lowercase_first_letter(&self) -> (res: String)
        ensures
            res@ == spec_lowercase_first_letter(self@),
    {
        if self.unicode_len() == 0 {
            return join_chars(Vec::new());
        }
        let mut chars = to_lowercase(self.get_char(0));
        push_rest(&mut chars, self, 1);
        join_chars(chars)
    }

    fn uppercase_first_letter(&self) -> (res: String)
        ensures
            res@ == spec_uppercase_first_letter(self@),
    {
        if self.unicode_len() == 0 {
            return join_chars(Vec::new());
        }
        let mut chars = to_uppercase(self.get_char(0));
        push_rest(&mut chars, self, 1);
        join_chars(chars)
    }
}

/// Inserting into and removing from a hash set where the caller knows that
/// the value is not or is there.
pub trait HashSetExtension<T> {
    spec fn set_model(&self) -> Set<T>;

    spec fn is_modeled() -> bool;

    fn force_insert(&mut self, value: T)
        requires
            Self::is_modeled() ==> !old(self).set_model().contains(value),
    ;

    fn force_remove(&mut self, value: &T)
        requires
            Self::is_modeled() ==> old(self).set_model().contains(*value),
    ;
}

impl<T: Eq + Hash, S: BuildHasher> HashSetExtension<T> for HashSet<T, S> {
    open spec fn set_model(&self) -> Set<T> {
        self@
    }

    open spec fn is_modeled() -> bool {
        obeys_key_model::<T>() && builds_valid_hashers::<S>()
    }

    fn force_insert(&mut self, value: T)
        ensures
            Self::is_modeled() ==> final(self)@ == old(self)@.insert(value),
    {
        self.insert(value);
    }

    fn force_remove(&mut self, value: &T)
        ensures
            Self::is_modeled() ==> final(self)@ == old(self)@.remove(*value),
    {
        self.remove(value);
    }
}

/// Inserting into, replacing in and removing from a hash map where the caller
/// knows whether the key is there.
pub trait HashMapExtension<K, V> {
    spec fn map_model(&self) -> Map<K, V>;

    spec fn is_modeled() -> bool;

    fn force_insert(&mut self, k: K, v: V)
        requires
            Self::is_modeled() ==> !old(self).map_model().contains_key(k),
    ;

    fn force_replace(&mut self, k: K, v: V) -> V
        requires
            Self::is_modeled(),
            old(self).map_model().contains_key(k),
    ;

    fn force_remove(&mut self, k: &K) -> V
        requires
            Self::is_modeled(),
            old(self).map_model().contains_key(*k),
    ;
}

impl<K: Eq + Hash, V, S: BuildHasher> HashMapExtension<K, V> for HashMap<K, V, S> {
    open spec fn map_model(&self) -> Map<K, V> {
        self@
    }

    open spec fn is_modeled() -> bool {
        obeys_key_model::<K>() && builds_valid_hashers::<S>()
    }

    fn force_insert(&mut self, k: K, v: V)
        ensures
            Self::is_modeled() ==> final(self)@ == old(self)@.insert(k, v),
    {
        self.insert(k, v);
    }

    fn force_replace(&mut self, k: K, v: V) -> (res: V)
        ensures
            final(self)@ == old(self)@.insert(k, v),
            res == old(self)@[k],
    {
        let previous = self.insert(k, v);
        previous.unwrap()
    }

    fn force_remove(&mut self, k: &K) -> (res: V)
        ensures
            final(self)@ == old(self)@.remove(*k),
            res == old(self)@[*k],
    {
        let previous = self.remove(k);
        previous.unwrap()
    }
}

} // verus!
