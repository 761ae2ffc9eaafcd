//! The weighted order on relay lists.
//!
//! A variant's relay list is kept in descending order of current weight,
//! with ties broken by ascending URL. The order is decided against a weight
//! map, so re-sorting after a weight change restores it. The sort is an
//! insertion sort whose result is pinned exactly by a specification fold,
//! which makes the order deterministic for a given input.

use vstd::prelude::*;
use crate::kvmap::UrlMap;
use crate::strings::{lex_leq, lemma_lex_total, lemma_lex_trans, str_lex_leq};

verus! {

/// `a` comes no later than `b`: strictly greater weight first, then
/// ascending URL.
pub open spec fn url_before(w: Map<Seq<char>, i64>, a: Seq<char>, b: Seq<char>) -> bool {
    w[a] > w[b] || (w[a] == w[b] && lex_leq(a, b))
}

/// The order is total.
pub proof fn lemma_url_before_total(w: Map<Seq<char>, i64>, a: Seq<char>, b: Seq<char>)
    ensures
        url_before(w, a, b) || url_before(w, b, a),
{
    lemma_lex_total(a, b);
}

/// The order is transitive.
pub proof fn lemma_url_before_trans(w: Map<Seq<char>, i64>, a: Seq<char>, b: Seq<char>, c: Seq<char>)
    requires
        url_before(w, a, b),
        url_before(w, b, c),
    ensures
        url_before(w, a, c),
{
    if w[a] == w[b] && w[b] == w[c] {
        lemma_lex_trans(a, b, c);
    }
}

/// `x` placed before the first listed URL that does not precede it.
pub open spec fn spec_insert_url(w: Map<Seq<char>, i64>, x: String, s: Seq<String>) -> Seq<String>
    decreases s.len(),
{
    if s.len() == 0 {
        seq![x]
    } else if url_before(w, x@, s[0]@) {
        seq![x] + s
    } else {
        seq![s[0]] + spec_insert_url(w, x, s.drop_first())
    }
}

/// The URLs of `s`, in the weighted order under `w`.
pub open spec fn spec_sort_urls(w: Map<Seq<char>, i64>, s: Seq<String>) -> Seq<String>
    decreases s.len(),
{
    if s.len() == 0 {
        Seq::empty()
    } else {
        spec_insert_url(w, s.last(), spec_sort_urls(w, s.drop_last()))
    }
}

/// A relay list in the weighted order under `w`.
pub open spec fn urls_sorted(w: Map<Seq<char>, i64>, s: Seq<String>) -> bool {
    forall|i: int, j: int| 0 <= i < j < s.len() ==> url_before(w, (#[trigger] s[i])@, (#[trigger] s[j])@)
}

/// Inserting adds one element.
pub proof fn lemma_insert_url_len(w: Map<Seq<char>, i64>, x: String, s: Seq<String>)
    ensures
        spec_insert_url(w, x, s).len() == s.len() + 1,
    decreases s.len(),
{
    if s.len() > 0 && !url_before(w, x@, s[0]@) {
        lemma_insert_url_len(w, x, s.drop_first());
    }
}

/// Sorting keeps the length.
pub proof fn lemma_sort_urls_len(w: Map<Seq<char>, i64>, s: Seq<String>)
    ensures
        spec_sort_urls(w, s).len() == s.len(),
    decreases s.len(),
{
    if s.len() > 0 {
        lemma_sort_urls_len(w, s.drop_last());
        lemma_insert_url_len(w, s.last(), spec_sort_urls(w, s.drop_last()));
    }
}

/// The inserted list holds exactly the old URLs and `x`.
pub proof fn lemma_insert_url_contains(w: Map<Seq<char>, i64>, x: String, s: Seq<String>, e: String)
    ensures
        spec_insert_url(w, x, s).contains(e) <==> (e == x || s.contains(e)),
    decreases s.len(),
{
    if s.len() == 0 {
        crate::seqs::lemma_singleton_contains(x, e);
        assert(!s.contains(e));
    } else if url_before(w, x@, s[0]@) {
        crate::seqs::lemma_cons_contains(x, s, e);
    } else {
        lemma_insert_url_contains(w, x, s.drop_first(), e);
        crate::seqs::lemma_drop_first_contains(s, e);
        crate::seqs::lemma_cons_contains(s[0], spec_insert_url(w, x, s.drop_first()), e);
    }
}

/// The sorted list holds exactly the old URLs.
pub proof fn lemma_sort_urls_contains(w: Map<Seq<char>, i64>, s: Seq<String>, e: String)
    ensures
        spec_sort_urls(w, s).contains(e) <==> s.contains(e),
    decreases s.len(),
{
    if s.len() == 0 {
        assert(!s.contains(e));
    } else {
        lemma_sort_urls_contains(w, s.drop_last(), e);
        lemma_insert_url_contains(w, s.last(), spec_sort_urls(w, s.drop_last()), e);
        crate::seqs::lemma_drop_last_contains(s, e);
    }
}

/// Inserting into an ordered list keeps it ordered.
pub proof fn lemma_insert_url_sorted(w: Map<Seq<char>, i64>, x: String, s: Seq<String>)
    requires
        urls_sorted(w, s),
    ensures
        urls_sorted(w, spec_insert_url(w, x, s)),
    decreases s.len(),
{
    if s.len() == 0 {
    } else if url_before(w, x@, s[0]@) {
        let t = seq![x] + s;
        assert forall|i: int, j: int| 0 <= i < j < t.len() implies url_before(
            w,
            t[i]@,
            t[j]@,
        ) by {
            if i == 0 {
                assert(t[j] == s[j - 1]);
                if j > 1 {
                    assert(url_before(w, s[0]@, s[j - 1]@));
                    lemma_url_before_trans(w, x@, s[0]@, s[j - 1]@);
                }
            } else {
                assert(t[i] == s[i - 1] && t[j] == s[j - 1]);
            }
        }
    } else {
        assert(urls_sorted(w, s.drop_first())) by {
            assert forall|i: int, j: int|
                0 <= i < j < s.drop_first().len() implies url_before(
                w,
                (s.drop_first()[i])@,
                (s.drop_first()[j])@,
            ) by {
                assert(s.drop_first()[i] == s[i + 1] && s.drop_first()[j] == s[j + 1]);
            }
        }
        lemma_insert_url_sorted(w, x, s.drop_first());
        let rest = spec_insert_url(w, x, s.drop_first());
        let t = seq![s[0]] + rest;
        lemma_insert_url_len(w, x, s.drop_first());
        assert forall|i: int, j: int| 0 <= i < j < t.len() implies url_before(
            w,
            t[i]@,
            t[j]@,
        ) by {
            if i == 0 {
                assert(t[j] == rest[j - 1]);
                lemma_insert_url_contains(w, x, s.drop_first(), rest[j - 1]);
                if rest[j - 1] == x {
                    lemma_url_before_total(w, x@, s[0]@);
                } else {
                    let k = choose|k: int|
                        0 <= k < s.drop_first().len() && s.drop_first()[k] == rest[j - 1];
                    assert(s[k + 1] == rest[j - 1]);
                    assert(url_before(w, s[0]@, s[k + 1]@));
                }
            } else {
                assert(t[i] == rest[i - 1] && t[j] == rest[j - 1]);
            }
        }
    }
}

/// The sort produces an ordered list.
pub proof fn lemma_sort_urls_sorted(w: Map<Seq<char>, i64>, s: Seq<String>)
    ensures
        urls_sorted(w, spec_sort_urls(w, s)),
    decreases s.len(),
{
    if s.len() > 0 {
        lemma_sort_urls_sorted(w, s.drop_last());
        lemma_insert_url_sorted(w, s.last(), spec_sort_urls(w, s.drop_last()));
    }
}

/// A sorted list's URLs stay inside any key set that held the unsorted
/// list's URLs.
pub proof fn lemma_sort_urls_in_dom(w: Map<Seq<char>, i64>, l: Seq<String>, d: Set<Seq<char>>)
    requires
        forall|i: int| 0 <= i < l.len() ==> d.contains((#[trigger] l[i])@),
    ensures
        forall|i: int|
            0 <= i < spec_sort_urls(w, l).len() ==> d.contains(
                (#[trigger] spec_sort_urls(w, l)[i])@,
            ),
{
    let sorted = spec_sort_urls(w, l);
    assert forall|i: int| 0 <= i < sorted.len() implies d.contains((#[trigger] sorted[i])@) by {
        assert(sorted.contains(sorted[i]));
        lemma_sort_urls_contains(w, l, sorted[i]);
        let j = choose|j: int| 0 <= j < l.len() && l[j] == sorted[i];
    }
}

/// Scanning to the first listed URL that does not strictly precede `x`
/// realises the recursive insertion as a sequence insertion.
proof fn lemma_insert_url_at(w: Map<Seq<char>, i64>, x: String, s: Seq<String>, j: int)
    requires
        0 <= j <= s.len(),
        forall|k: int| 0 <= k < j ==> !url_before(w, x@, (#[trigger] s[k])@),
        j == s.len() || url_before(w, x@, s[j]@),
    ensures
        spec_insert_url(w, x, s) == s.insert(j, x),
    decreases s.len(),
{
    if j == 0 {
        if s.len() == 0 {
            assert(spec_insert_url(w, x, s) =~= s.insert(0, x));
        } else {
            assert(seq![x] + s =~= s.insert(0, x));
        }
    } else {
        let d = s.drop_first();
        assert(forall|k: int| 0 <= k < d.len() ==> #[trigger] d[k] == s[k + 1]);
        lemma_insert_url_at(w, x, d, j - 1);
        assert(seq![s[0]] + d.insert(j - 1, x) =~= s.insert(j, x)) by {
            d.insert_ensures(j - 1, x);
            s.insert_ensures(j, x);
            assert forall|i: int|
                0 <= i < (seq![s[0]] + d.insert(j - 1, x)).len() implies (seq![s[0]] + d.insert(
                j - 1,
                x,
            ))[i] == s.insert(j, x)[i] by {
                if i > 0 {
                    assert((seq![s[0]] + d.insert(j - 1, x))[i] == d.insert(j - 1, x)[i - 1]);
                    if i - 1 < j - 1 {
                        assert(d.insert(j - 1, x)[i - 1] == d[i - 1]);
                        assert(s.insert(j, x)[i] == s[i]);
                    } else if i - 1 == j - 1 {
                        assert(d.insert(j - 1, x)[j - 1] == x);
                        assert(s.insert(j, x)[j] == x);
                    } else {
                        assert(d.insert(j - 1, x)[i - 1] == d[i - 2]);
                        assert(s.insert(j, x)[i] == s[i - 1]);
                    }
                } else {
                    assert(s.insert(j, x)[0] == s[0]);
                }
            }
        }
    }
}

/// Decides the weighted order on two listed URLs.
fn url_before_exec(w: &UrlMap<i64>, a: &String, b: &String) -> (r: bool)
    requires
        w.wf(),
        w@.dom().contains(a@),
        w@.dom().contains(b@),
    ensures
        r == url_before(w@, a@, b@),
{
    let wa = match w.get(a.as_str()) {
        Some(v) => *v,
        None => 0,
    };
    let wb = match w.get(b.as_str()) {
        Some(v) => *v,
        None => 0,
    };
    if wa > wb {
        true
    } else if wa == wb {
        str_lex_leq(a.as_str(), b.as_str())
    } else {
        false
    }
}

/// Inserts a URL into an ordered list, keeping it ordered.
fn insert_url_sorted(out: &mut Vec<String>, x: String, w: &UrlMap<i64>)
    requires
        w.wf(),
        w@.dom().contains(x@),
        forall|k: int| 0 <= k < old(out)@.len() ==> w@.dom().contains((#[trigger] old(out)@[k])@),
    ensures
        final(out)@ == spec_insert_url(w@, x, old(out)@),
{
    let mut j: usize = 0;
    loop
        invariant
            j <= out@.len(),
            out@ == old(out)@,
            w.wf(),
            w@.dom().contains(x@),
            forall|k: int| 0 <= k < out@.len() ==> w@.dom().contains((#[trigger] out@[k])@),
            forall|k: int| 0 <= k < j ==> !url_before(w@, x@, (#[trigger] out@[k])@),
        ensures
            j <= out@.len(),
            out@ == old(out)@,
            forall|k: int| 0 <= k < j ==> !url_before(w@, x@, (#[trigger] out@[k])@),
            j == out@.len() || url_before(w@, x@, out@[j as int]@),
        decreases out@.len() - j,
    {
        if j >= out.len() {
            break ;
        }
        let before = url_before_exec(w, &x, &out[j]);
        if before {
            break ;
        }
        j = j + 1;
    }
    proof {
        lemma_insert_url_at(w@, x, out@, j as int);
    }
    out.insert(j, x);
}

/// Sorts a relay list into the weighted order, in place.
///
/// Every listed URL must carry a weight; the registry's well-formedness
/// provides that.
pub fn weighted_sort(relays: &mut Vec<String>, weights: &UrlMap<i64>)
    requires
        weights.wf(),
        forall|i: int|
            0 <= i < old(relays)@.len() ==> weights@.dom().contains((#[trigger] old(relays)@[i])@),
    ensures
        final(relays)@ == spec_sort_urls(weights@, old(relays)@),
{
    let n = relays.len();
    let mut out: Vec<String> = Vec::new();
    let mut i: usize = 0;
    while i < n
        invariant
            i <= n,
            n == relays@.len(),
            relays@ == old(relays)@,
            weights.wf(),
            forall|k: int|
                0 <= k < relays@.len() ==> weights@.dom().contains((#[trigger] relays@[k])@),
            out@ == spec_sort_urls(weights@, relays@.take(i as int)),
            forall|k: int|
                0 <= k < out@.len() ==> weights@.dom().contains((#[trigger] out@[k])@),
        decreases n - i,
    {
        let x = relays[i].clone();
        let ghost out_before = out@;
        insert_url_sorted(&mut out, x, weights);
        proof {
            assert(relays@.take(i + 1).drop_last() =~= relays@.take(i as int));
            assert(relays@.take(i + 1).last() == relays@[i as int]);
            assert forall|k: int|
                0 <= k < out@.len() implies weights@.dom().contains(
                (#[trigger] out@[k])@,
            ) by {
                assert(out@.contains(out@[k]));
                lemma_insert_url_contains(weights@, relays@[i as int], out_before, out@[k]);
                if out@[k] != relays@[i as int] {
                    let m = choose|m: int| 0 <= m < out_before.len() && out_before[m] == out@[k];
                }
            }
        }
        i = i + 1;
    }
    proof {
        assert(relays@.take(n as int) =~= relays@);
    }
    *relays = out;
}

} // verus!
