//! A map keyed by relay URL.
//!
//! The registry keys statistics and weights by URL strings. The map is held
//! as a vector of pairs with pairwise-distinct keys and is read through its
//! mathematical view, a `Map` from character sequences to values.

use vstd::prelude::*;
use vstd::string::StringExecFns;
use crate::strings::str_eq;

verus! {

/// The map described by an association list: later entries win, though the
/// well-formed maps never hold a key twice.
pub open spec fn kv_view<V>(s: Seq<(String, V)>) -> Map<Seq<char>, V>
    decreases s.len(),
{
    if s.len() == 0 {
        Map::empty()
    } else {
        kv_view(s.drop_last()).insert(s.last().0@, s.last().1)
    }
}

/// Pairwise-distinct keys.
pub open spec fn keys_unique<V>(s: Seq<(String, V)>) -> bool {
    forall|i: int, j: int| 0 <= i < j < s.len() ==> (#[trigger] s[i]).0@ != (#[trigger] s[j]).0@
}

/// An entry's key is in the view, mapped to the entry's value.
proof fn lemma_kv_view_index<V>(s: Seq<(String, V)>, i: int)
    requires
        keys_unique(s),
        0 <= i < s.len(),
    ensures
        kv_view(s).dom().contains(s[i].0@),
        kv_view(s)[s[i].0@] == s[i].1,
    decreases s.len(),
{
    if i == s.len() - 1 {
    } else {
        let d = s.drop_last();
        assert(keys_unique(d));
        assert(d[i] == s[i]);
        lemma_kv_view_index(d, i);
        assert(s[i].0@ != s.last().0@);
    }
}

/// A key matching no entry is not in the view.
proof fn lemma_kv_view_absent<V>(s: Seq<(String, V)>, k: Seq<char>)
    requires
        forall|i: int| 0 <= i < s.len() ==> (#[trigger] s[i]).0@ != k,
    ensures
        !kv_view(s).dom().contains(k),
    decreases s.len(),
{
    if s.len() > 0 {
        let d = s.drop_last();
        assert(forall|i: int| 0 <= i < d.len() ==> (#[trigger] d[i]).0@ != k);
        lemma_kv_view_absent(d, k);
    }
}

/// Appending a pair inserts its key.
proof fn lemma_kv_view_push<V>(s: Seq<(String, V)>, p: (String, V))
    ensures
        kv_view(s.push(p)) == kv_view(s).insert(p.0@, p.1),
{
    assert(s.push(p).drop_last() =~= s);
    assert(s.push(p).last() == p);
}

/// Replacing the entry at `i` by a pair with the same key updates the view
/// at that key.
proof fn lemma_kv_view_update<V>(s: Seq<(String, V)>, i: int, p: (String, V))
    requires
        keys_unique(s),
        0 <= i < s.len(),
        p.0@ == s[i].0@,
    ensures
        kv_view(s.update(i, p)) == kv_view(s).insert(p.0@, p.1),
    decreases s.len(),
{
    let t = s.update(i, p);
    if i == s.len() - 1 {
        assert(t.drop_last() =~= s.drop_last());
        assert(t.last() == p);
        assert(kv_view(s.drop_last()).insert(s.last().0@, s.last().1).insert(p.0@, p.1)
            =~= kv_view(s.drop_last()).insert(p.0@, p.1));
    } else {
        let d = s.drop_last();
        assert(keys_unique(d));
        assert(d[i] == s[i]);
        lemma_kv_view_update(d, i, p);
        assert(t.drop_last() =~= d.update(i, p));
        assert(t.last() == s.last());
        assert(s[i].0@ != s.last().0@);
        assert(kv_view(d).insert(p.0@, p.1).insert(s.last().0@, s.last().1) =~= kv_view(
            d,
        ).insert(s.last().0@, s.last().1).insert(p.0@, p.1));
    }
}

/// Removing the entry at `i` removes its key from the view.
proof fn lemma_kv_view_remove<V>(s: Seq<(String, V)>, i: int)
    requires
        keys_unique(s),
        0 <= i < s.len(),
    ensures
        kv_view(s.remove(i)) == kv_view(s).remove(s[i].0@),
    decreases s.len(),
{
    if i == s.len() - 1 {
        assert(s.remove(i) =~= s.drop_last());
        assert(forall|j: int| 0 <= j < s.drop_last().len() ==> (#[trigger] s.drop_last()[j]).0@
            != s[i].0@);
        lemma_kv_view_absent(s.drop_last(), s[i].0@);
        assert(kv_view(s.drop_last()).insert(s.last().0@, s.last().1).remove(s[i].0@)
            =~= kv_view(s.drop_last()));
    } else {
        let d = s.drop_last();
        assert(keys_unique(d));
        assert(d[i] == s[i]);
        lemma_kv_view_remove(d, i);
        assert(s.remove(i).drop_last() =~= d.remove(i));
        assert(s.remove(i).last() == s.last());
        assert(s[i].0@ != s.last().0@);
        assert(kv_view(d).remove(s[i].0@).insert(s.last().0@, s.last().1) =~= kv_view(
            d,
        ).insert(s.last().0@, s.last().1).remove(s[i].0@));
    }
}

/// A registry map from relay URLs to values.
#[derive(Debug)]
pub struct UrlMap<V> {
    pub entries: Vec<(String, V)>,
}

impl<V> View for UrlMap<V> {
    type V = Map<Seq<char>, V>;

    open spec fn view(&self) -> Map<Seq<char>, V> {
        kv_view(self.entries@)
    }
}

impl<V> UrlMap<V> {
    /// No key is held twice.
    pub open spec fn wf(self) -> bool {
        keys_unique(self.entries@)
    }

    /// The empty map.
    pub fn new() -> (r: UrlMap<V>)
        ensures
            r.wf(),
            r@ == Map::<Seq<char>, V>::empty(),
    {
        UrlMap { entries: Vec::new() }
    }

    /// The value held for `url`, if any.
    pub fn get(&self, url: &str) -> (r: Option<&V>)
        requires
            self.wf(),
        ensures
            match r {
                Some(v) => self@.dom().contains(url@) && *v == self@[url@],
                None => !self@.dom().contains(url@),
            },
    {
        let n = self.entries.len();
        let mut i: usize = 0;
        while i < n
            invariant
                i <= n,
                n == self.entries@.len(),
                self.wf(),
                forall|j: int| 0 <= j < i ==> (#[trigger] self.entries@[j]).0@ != url@,
            decreases n - i,
        {
            let hit = str_eq(self.entries[i].0.as_str(), url);
            if hit {
                proof {
                    lemma_kv_view_index(self.entries@, i as int);
                }
                let entry = &self.entries[i];
                return Some(&entry.1);
            }
            i = i + 1;
        }
        proof {
            lemma_kv_view_absent(self.entries@, url@);
        }
        None
    }

    /// Whether the map holds `url`.
    pub fn contains_key(&self, url: &str) -> (r: bool)
        requires
            self.wf(),
        ensures
            r == self@.dom().contains(url@),
    {
        self.get(url).is_some()
    }

    /// Binds `url` to `value`, replacing any existing binding.
    pub fn insert(&mut self, url: &str, value: V)
        requires
            old(self).wf(),
        ensures
            final(self).wf(),
            final(self)@ == old(self)@.insert(url@, value),
    {
        let ghost orig = self.entries@;
        let n = self.entries.len();
        let mut i: usize = 0;
        while i < n
            invariant
                i <= n,
                n == self.entries@.len(),
                self.wf(),
                self.entries@ == orig,
                orig == old(self).entries@,
                forall|j: int| 0 <= j < i ==> (#[trigger] self.entries@[j]).0@ != url@,
            decreases n - i,
        {
            let hit = str_eq(self.entries[i].0.as_str(), url);
            if hit {
                let mut entry = self.entries.remove(i);
                entry.1 = value;
                proof {
                    assert(entry.0@ == orig[i as int].0@);
                }
                self.entries.insert(i, entry);
                proof {
                    assert(self.entries@ =~= orig.update(i as int, entry));
                    lemma_kv_view_update(orig, i as int, entry);
                    assert(keys_unique(self.entries@)) by {
                        assert(forall|j: int|
                            0 <= j < orig.len() && j != i ==> #[trigger] self.entries@[j]
                                == orig[j]);
                        assert(self.entries@[i as int].0@ == orig[i as int].0@);
                    }
                    assert(self@ == old(self)@.insert(url@, value));
                }
                return ;
            }
            i = i + 1;
        }
        let owned = String::from_str(url);
        self.entries.push((owned, value));
        proof {
            lemma_kv_view_push(orig, self.entries@.last());
            assert(self.entries@.last().0@ == url@);
            assert(self.entries@.drop_last() =~= orig);
            assert(keys_unique(self.entries@)) by {
                assert(forall|j: int|
                    0 <= j < orig.len() ==> #[trigger] self.entries@[j] == orig[j]);
            }
            assert(self@ == old(self)@.insert(url@, value));
        }
    }

    /// A mutable borrow of the value bound to `url`, which must be present.
    /// The map afterwards holds whatever the caller wrote through the
    /// borrow, under the same key.
    pub fn get_mut(&mut self, url: &str) -> (r: &mut V)
        requires
            old(self).wf(),
            old(self)@.dom().contains(url@),
        ensures
            *r == old(self)@[url@],
            final(self).wf(),
            final(self)@ == old(self)@.insert(url@, *final(r)),
    {
        let ghost orig = self.entries@;
        let n = self.entries.len();
        let mut i: usize = 0;
        loop
            invariant
                i <= n,
                n == self.entries@.len(),
                self.wf(),
                self.entries@ == orig,
                orig == old(self).entries@,
                *self == *old(self),
                old(self)@.dom().contains(url@),
                forall|j: int| 0 <= j < i ==> (#[trigger] self.entries@[j]).0@ != url@,
            ensures
                i < n,
                n == self.entries@.len(),
                self.entries@ == orig,
                orig == old(self).entries@,
                *self == *old(self),
                (self.entries@[i as int]).0@ == url@,
            decreases n - i,
        {
            if i >= n {
                proof {
                    lemma_kv_view_absent(self.entries@, url@);
                    assert(false);
                }
                break ;
            }
            let hit = str_eq(self.entries[i].0.as_str(), url);
            if hit {
                break ;
            }
            i = i + 1;
        }
        proof {
            lemma_kv_view_index(orig, i as int);
            assert forall|p: (String, V)| p.0@ == url@ implies #[trigger] kv_view(
                orig.update(i as int, p),
            ) == kv_view(orig).insert(url@, p.1) by {
                lemma_kv_view_update(orig, i as int, p);
            }
            assert forall|p: (String, V)|
                p.0@ == url@ implies #[trigger] keys_unique(orig.update(i as int, p)) by {
                assert(forall|j: int|
                    0 <= j < orig.len() && j != i ==> #[trigger] orig.update(i as int, p)[j]
                        == orig[j]);
                assert(orig.update(i as int, p)[i as int].0@ == orig[i as int].0@);
            }
        }
        let entry = &mut self.entries[i];
        &mut entry.1
    }

    /// Removes and returns the value bound to `url`, if any.
    pub fn take(&mut self, url: &str) -> (r: Option<V>)
        requires
            old(self).wf(),
        ensures
            final(self).wf(),
            match r {
                Some(v) => {
                    &&& old(self)@.dom().contains(url@)
                    &&& v == old(self)@[url@]
                    &&& final(self)@ == old(self)@.remove(url@)
                },
                None => !old(self)@.dom().contains(url@) && *final(self) == *old(self),
            },
    {
        let ghost orig = self.entries@;
        let n = self.entries.len();
        let mut i: usize = 0;
        while i < n
            invariant
                i <= n,
                n == self.entries@.len(),
                self.wf(),
                self.entries@ == orig,
                orig == old(self).entries@,
                *self == *old(self),
                forall|j: int| 0 <= j < i ==> (#[trigger] self.entries@[j]).0@ != url@,
            decreases n - i,
        {
            let hit = str_eq(self.entries[i].0.as_str(), url);
            if hit {
                proof {
                    lemma_kv_view_index(orig, i as int);
                    lemma_kv_view_remove(orig, i as int);
                }
                let entry = self.entries.remove(i);
                proof {
                    assert(keys_unique(self.entries@)) by {
                        assert forall|a: int, b: int|
                            0 <= a < b < self.entries@.len() implies (#[trigger] self.entries@[a]).0@
                            != (#[trigger] self.entries@[b]).0@ by {
                            let oa = if a < i { a } else { a + 1 };
                            let ob = if b < i { b } else { b + 1 };
                            assert(self.entries@[a] == orig[oa]);
                            assert(self.entries@[b] == orig[ob]);
                        }
                    }
                }
                return Some(entry.1);
            }
            i = i + 1;
        }
        proof {
            lemma_kv_view_absent(self.entries@, url@);
        }
        None
    }
}

} // verus!
