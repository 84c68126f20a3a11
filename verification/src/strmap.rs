//! An association list from `String` keys to values, in insertion order.
//!
//! The topology document is a mapping whose entries keep the order in which
//! they appear, so the model stores entries in a vector rather than a hash
//! table.  Lookup takes the first entry with the given key; well-formed
//! configurations have pairwise distinct keys.

use vstd::prelude::*;

use crate::text::str_eq;

verus! {

/// One lookup step: the first value whose key equals `name`.
pub open spec fn map_get<T>(s: Seq<(Seq<char>, T)>, name: Seq<char>) -> Option<T>
    decreases s.len(),
{
    if s.len() == 0 {
        None
    } else if s[0].0 == name {
        Some(s[0].1)
    } else {
        map_get(s.drop_first(), name)
    }
}

/// Whether some entry has the key `name`.
pub open spec fn map_has<T>(s: Seq<(Seq<char>, T)>, name: Seq<char>) -> bool {
    exists|i: int| 0 <= i < s.len() && s[i].0 == name
}

/// All keys pairwise distinct.
pub open spec fn keys_distinct<T>(s: Seq<(Seq<char>, T)>) -> bool {
    forall|i: int, j: int| 0 <= i < j < s.len() ==> s[i].0 != s[j].0
}

/// `map_get` returns `Some` exactly on the keys that occur.
pub proof fn lemma_map_get_has<T>(s: Seq<(Seq<char>, T)>, name: Seq<char>)
    ensures
        map_get(s, name) is Some <==> map_has(s, name),
    decreases s.len(),
{
    if s.len() > 0 && s[0].0 != name {
        lemma_map_get_has(s.drop_first(), name);
        if map_has(s.drop_first(), name) {
            let i = choose|i: int| 0 <= i < s.drop_first().len() && s.drop_first()[i].0 == name;
            assert(s[i + 1].0 == name);
        }
        if map_has(s, name) {
            let i = choose|i: int| 0 <= i < s.len() && s[i].0 == name;
            assert(s.drop_first()[i - 1].0 == name);
        }
    }
}

/// The index of the first entry with key `name`, or -1 when there is none.
pub open spec fn first_index<T>(s: Seq<(Seq<char>, T)>, name: Seq<char>) -> int
    decreases s.len(),
{
    if s.len() == 0 {
        -1
    } else if s[0].0 == name {
        0
    } else {
        let r = first_index(s.drop_first(), name);
        if r < 0 {
            -1
        } else {
            r + 1
        }
    }
}

/// `first_index` finds an entry exactly when the key occurs, and then
/// points at its first occurrence.
pub proof fn lemma_first_index<T>(s: Seq<(Seq<char>, T)>, name: Seq<char>)
    ensures
        map_has(s, name) <==> first_index(s, name) >= 0,
        map_has(s, name) ==> {
            let fi = first_index(s, name);
            &&& 0 <= fi < s.len()
            &&& s[fi].0 == name
            &&& forall|k: int| 0 <= k < fi ==> s[k].0 != name
        },
    decreases s.len(),
{
    if s.len() > 0 && s[0].0 != name {
        lemma_first_index(s.drop_first(), name);
        if map_has(s.drop_first(), name) {
            let i = choose|i: int| 0 <= i < s.drop_first().len() && s.drop_first()[i].0 == name;
            assert(s[i + 1].0 == name);
            let fi = first_index(s.drop_first(), name);
            assert(s[fi + 1] == s.drop_first()[fi]);
            assert(forall|k: int|
                0 <= k < fi + 1 ==> s[k].0 != name) by {
                assert(forall|k: int|
                    1 <= k < fi + 1 ==> s[k].0 == s.drop_first()[k - 1].0 && s.drop_first()[k
                        - 1].0 != name);
            }
        } else {
            if map_has(s, name) {
                let i = choose|i: int| 0 <= i < s.len() && s[i].0 == name;
                assert(s.drop_first()[i - 1].0 == name);
            }
        }
    }
}

/// A first match found by a left-to-right scan is `first_index`.
pub proof fn lemma_first_index_at<T>(s: Seq<(Seq<char>, T)>, name: Seq<char>, j: int)
    requires
        0 <= j < s.len(),
        s[j].0 == name,
        forall|k: int| 0 <= k < j ==> s[k].0 != name,
    ensures
        first_index(s, name) == j,
    decreases s.len(),
{
    if j > 0 {
        assert(s.drop_first()[j - 1] == s[j]);
        assert(forall|k: int| 0 <= k < j - 1 ==> s.drop_first()[k] == s[k + 1]);
        lemma_first_index_at(s.drop_first(), name, j - 1);
    }
}

/// An association list with `String` keys, kept in insertion order.
pub struct StrMap<V> {
    pub entries: Vec<(String, V)>,
}

impl<V: View> View for StrMap<V> {
    type V = Seq<(Seq<char>, <V as View>::V)>;

    open spec fn view(&self) -> Seq<(Seq<char>, <V as View>::V)> {
        self.entries@.map(|i: int, p: (String, V)| (p.0@, p.1@))
    }
}

impl<V: View> StrMap<V> {
    /// The empty map.
    pub fn new() -> (r: Self)
        ensures
            r@ =~= Seq::<(Seq<char>, <V as View>::V)>::empty(),
    {
        StrMap { entries: Vec::new() }
    }

    /// Number of entries.
    pub fn len(&self) -> (n: usize)
        ensures
            n == self@.len(),
    {
        self.entries.len()
    }

    /// Whether the map has no entries.
    pub fn is_empty(&self) -> (b: bool)
        ensures
            b == (self@.len() == 0),
    {
        self.entries.len() == 0
    }

    /// Whether some entry carries the key `name`.
    pub fn contains_key(&self, name: &str) -> (b: bool)
        ensures
            b == map_has(self@, name@),
    {
        let n: usize = self.entries.len();
        for i in 0..n
            invariant
                n == self@.len(),
                forall|k: int| 0 <= k < i ==> self@[k].0 != name@,
        {
            if str_eq(self.entries[i].0.as_str(), name) {
                assert(self@[i as int].0 == name@);
                return true;
            }
        }
        false
    }

    /// The first value stored under `name`, if any.
    pub fn get<'a>(&'a self, name: &str) -> (r: Option<&'a V>)
        ensures
            r is Some <==> map_has(self@, name@),
            match r {
                Some(v) => map_get(self@, name@) == Some(v@),
                None => map_get(self@, name@) is None,
            },
    {
        proof {
            lemma_map_get_has(self@, name@);
            assert(self@.skip(0) =~= self@);
        }
        let n: usize = self.entries.len();
        for i in 0..n
            invariant
                n == self@.len(),
                forall|k: int| 0 <= k < i ==> self@[k].0 != name@,
                map_get(self@, name@) == map_get(self@.skip(i as int), name@),
        {
            proof {
                assert(self@.skip(i as int)[0] == self@[i as int]);
                assert(self@.skip(i as int).drop_first() =~= self@.skip(i + 1));
            }
            if str_eq(self.entries[i].0.as_str(), name) {
                assert(self@[i as int].0 == name@);
                return Some(&self.entries[i].1);
            }
        }
        assert(self@.skip(n as int) =~= Seq::<(Seq<char>, <V as View>::V)>::empty());
        None
    }

    /// The index of the first entry stored under `name`, if any.
    pub fn index_of(&self, name: &str) -> (r: Option<usize>)
        ensures
            r is Some <==> map_has(self@, name@),
            match r {
                Some(j) => j == first_index(self@, name@),
                None => true,
            },
    {
        let n: usize = self.entries.len();
        for i in 0..n
            invariant
                n == self@.len(),
                forall|k: int| 0 <= k < i ==> self@[k].0 != name@,
        {
            if str_eq(self.entries[i].0.as_str(), name) {
                assert(self@[i as int].0 == name@);
                proof {
                    lemma_first_index_at(self@, name@, i as int);
                }
                return Some(i);
            }
        }
        None
    }

    /// Append an entry at the end.
    pub fn push(&mut self, name: String, v: V)
        ensures
            final(self)@ =~= old(self)@.push((name@, v@)),
    {
        self.entries.push((name, v));
    }
}

} // verus!
