//! Generic string-keyed attribute storage, with the derived boolean
//! "visible" convention: absence of the reserved key means visible.

use vstd::prelude::*;
use crate::textfmt::str_eq;

verus! {

/// String-keyed property storage, owned by an entity (or its decorating
/// wrapper). Insertion order is irrelevant; the abstract value is a map from
/// key characters to value characters.
pub struct PropertyMap {
    pub pairs: Vec<(String, String)>,
}

/// First-match lookup in an association list.
pub open spec fn assoc_lookup(s: Seq<(String, String)>, k: Seq<char>) -> Option<Seq<char>>
    decreases s.len(),
{
    if s.len() == 0 {
        None
    } else if s[0].0@ == k {
        Some(s[0].1@)
    } else {
        assoc_lookup(s.drop_first(), k)
    }
}

impl View for PropertyMap {
    type V = Map<Seq<char>, Seq<char>>;

    open spec fn view(&self) -> Map<Seq<char>, Seq<char>> {
        Map::new(
            |k: Seq<char>| assoc_lookup(self.pairs@, k) is Some,
            |k: Seq<char>| assoc_lookup(self.pairs@, k).unwrap(),
        )
    }
}

/// Looking a key up past a prefix of non-matching pairs is the same as
/// looking it up in the whole list.
proof fn lemma_lookup_skip(s: Seq<(String, String)>, i: int, k: Seq<char>)
    requires
        0 <= i < s.len(),
        s[i].0@ != k,
        assoc_lookup(s, k) == assoc_lookup(s.skip(i), k),
    ensures
        assoc_lookup(s, k) == assoc_lookup(s.skip(i + 1), k),
{
    assert(s.skip(i)[0] == s[i]);
    assert(s.skip(i).drop_first() =~= s.skip(i + 1));
}

/// Appending a pair leaves every key that was already bound unchanged and
/// binds the new pair's key if it was absent.
proof fn lemma_lookup_push(s: Seq<(String, String)>, p: (String, String), k: Seq<char>)
    ensures
        assoc_lookup(s.push(p), k) == (if assoc_lookup(s, k) is Some {
            assoc_lookup(s, k)
        } else if p.0@ == k {
            Some::<Seq<char>>(p.1@)
        } else {
            None::<Seq<char>>
        }),
    decreases s.len(),
{
    assert(s.push(p).len() == s.len() + 1);
    if s.len() == 0 {
        assert(s.push(p)[0] == p);
        assert(s.push(p).drop_first() =~= Seq::<(String, String)>::empty());
        assert(assoc_lookup(s.push(p).drop_first(), k) is None);
    } else {
        assert(s.push(p)[0] == s[0]);
        assert(s.push(p).drop_first() =~= s.drop_first().push(p));
        lemma_lookup_push(s.drop_first(), p, k);
    }
}

/// Replacing the first pair whose key matches rebinds exactly that key.
proof fn lemma_lookup_update(s: Seq<(String, String)>, i: int, p: (String, String), k: Seq<char>)
    requires
        0 <= i < s.len(),
        p.0@ == s[i].0@,
        forall|j: int| 0 <= j < i ==> s[j].0@ != p.0@,
    ensures
        assoc_lookup(s.update(i, p), k) == (if k == p.0@ {
            Some::<Seq<char>>(p.1@)
        } else {
            assoc_lookup(s, k)
        }),
    decreases i,
{
    if i == 0 {
        assert(s.update(0, p)[0] == p);
        assert(s.update(0, p).drop_first() =~= s.drop_first());
    } else {
        assert(s.update(i, p)[0] == s[0]);
        assert(s.update(i, p).drop_first() =~= s.drop_first().update(i - 1, p));
        lemma_lookup_update(s.drop_first(), i - 1, p, k);
    }
}

impl PropertyMap {
    /// An empty property store.
    pub fn new() -> (r: PropertyMap)
        ensures
            r@ == Map::<Seq<char>, Seq<char>>::empty(),
    {
        let r = PropertyMap { pairs: Vec::new() };
        proof {
            assert(r@ =~= Map::<Seq<char>, Seq<char>>::empty());
        }
        r
    }

    /// The value bound to `key`, or absent when the key was never set.
    pub fn get_property(&self, key: &str) -> (r: Option<&str>)
        ensures
            match r {
                Some(v) => self@.contains_key(key@) && v@ == self@[key@],
                None => !self@.contains_key(key@),
            },
    {
        let n = self.pairs.len();
        proof {
            assert(self.pairs@.skip(0) =~= self.pairs@);
        }
        let mut i: usize = 0;
        while i < n
            invariant
                i <= n,
                n == self.pairs@.len(),
                assoc_lookup(self.pairs@, key@) == assoc_lookup(self.pairs@.skip(i as int), key@),
            decreases n - i,
        {
            if str_eq(self.pairs[i].0.as_str(), key) {
                proof {
                    assert(self.pairs@.skip(i as int)[0] == self.pairs@[i as int]);
                    assert(assoc_lookup(self.pairs@, key@) == Some(self.pairs@[i as int].1@));
                }
                return Some(self.pairs[i].1.as_str());
            }
            proof {
                lemma_lookup_skip(self.pairs@, i as int, key@);
            }
            i += 1;
        }
        proof {
            assert(self.pairs@.skip(n as int) =~= Seq::<(String, String)>::empty());
        }
        None
    }

    /// Binds `key` to `value`, replacing any previous binding; always
    /// reports success.
    pub fn set_property(&mut self, key: &str, value: &str) -> (r: bool)
        ensures
            r,
            final(self)@ == old(self)@.insert(key@, value@),
    {
        let n = self.pairs.len();
        let mut i: usize = 0;
        while i < n
            invariant
                i <= n,
                n == self.pairs@.len(),
                *self == *old(self),
                forall|j: int| 0 <= j < i ==> self.pairs@[j].0@ != key@,
            decreases n - i,
        {
            if str_eq(self.pairs[i].0.as_str(), key) {
                let p = (key.to_owned(), value.to_owned());
                self.pairs.remove(i);
                self.pairs.insert(i, p);
                proof {
                    assert(self.pairs@ =~= old(self).pairs@.update(i as int, p));
                    lemma_lookup_update_all(old(self).pairs@, i as int, p);
                    assert(self@ =~= old(self)@.insert(key@, value@));
                }
                return true;
            }
            i += 1;
        }
        let p = (key.to_owned(), value.to_owned());
        self.pairs.push(p);
        proof {
            assert(assoc_lookup(old(self).pairs@, key@) is None) by {
                assert(old(self).pairs@.skip(0) =~= old(self).pairs@);
                lemma_lookup_none(old(self).pairs@, key@);
            }
            lemma_lookup_push_all(old(self).pairs@, p);
            assert(self@ =~= old(self)@.insert(key@, value@));
        }
        true
    }
}

/// A list none of whose keys match `k` does not bind `k`.
proof fn lemma_lookup_none(s: Seq<(String, String)>, k: Seq<char>)
    requires
        forall|j: int| 0 <= j < s.len() ==> s[j].0@ != k,
    ensures
        assoc_lookup(s, k) is None,
    decreases s.len(),
{
    if s.len() > 0 {
        assert(s.drop_first() =~= s.skip(1));
        assert(forall|j: int| 0 <= j < s.drop_first().len() ==> s.drop_first()[j] == s[j + 1]);
        lemma_lookup_none(s.drop_first(), k);
    }
}

proof fn lemma_lookup_push_all(s: Seq<(String, String)>, p: (String, String))
    ensures
        forall|k: Seq<char>|
            #![auto]
            assoc_lookup(s.push(p), k) == (if assoc_lookup(s, k) is Some {
                assoc_lookup(s, k)
            } else if p.0@ == k {
                Some::<Seq<char>>(p.1@)
            } else {
                None::<Seq<char>>
            }),
{
    assert forall|k: Seq<char>| #![auto] true implies assoc_lookup(s.push(p), k) == (
    if assoc_lookup(s, k) is Some {
        assoc_lookup(s, k)
    } else if p.0@ == k {
        Some::<Seq<char>>(p.1@)
    } else {
        None::<Seq<char>>
    }) by {
        lemma_lookup_push(s, p, k);
    }
}

proof fn lemma_lookup_update_all(s: Seq<(String, String)>, i: int, p: (String, String))
    requires
        0 <= i < s.len(),
        p.0@ == s[i].0@,
        forall|j: int| 0 <= j < i ==> s[j].0@ != p.0@,
    ensures
        forall|k: Seq<char>|
            #![auto]
            assoc_lookup(s.update(i, p), k) == (if k == p.0@ {
                Some::<Seq<char>>(p.1@)
            } else {
                assoc_lookup(s, k)
            }),
{
    assert forall|k: Seq<char>| #![auto] true implies assoc_lookup(s.update(i, p), k) == (
    if k == p.0@ {
        Some::<Seq<char>>(p.1@)
    } else {
        assoc_lookup(s, k)
    }) by {
        lemma_lookup_update(s, i, p, k);
    }
}

/// The derived visibility convention over a property map: an entity is
/// visible unless the reserved key is present and bound to anything other
/// than "true".
pub open spec fn spec_visible(m: Map<Seq<char>, Seq<char>>) -> bool {
    if m.contains_key("visible"@) {
        m["visible"@] == "true"@
    } else {
        true
    }
}

/// Law: a property set is immediately readable back with the value that was
/// set, a key that was never set reads as absent, and the reserved
/// visibility key defaults to visible when absent.
pub proof fn lemma_property_round_trip(m: Map<Seq<char>, Seq<char>>, k: Seq<char>, v: Seq<char>)
    ensures
        m.insert(k, v).contains_key(k),
        m.insert(k, v)[k] == v,
        !Map::<Seq<char>, Seq<char>>::empty().contains_key(k),
        !m.contains_key("visible"@) ==> spec_visible(m),
{
}

} // verus!
