//! Small general facts about sequence membership used by the sorting proofs.

use vstd::prelude::*;

verus! {

/// An element is in `seq![h] + r` exactly when it is `h` or in `r`.
pub proof fn lemma_cons_contains<T>(h: T, r: Seq<T>, e: T)
    ensures
        (seq![h] + r).contains(e) <==> (e == h || r.contains(e)),
{
    let t = seq![h] + r;
    if t.contains(e) {
        let i = choose|i: int| 0 <= i < t.len() && t[i] == e;
        if i > 0 {
            assert(r[i - 1] == e);
        }
    }
    assert(t[0] == h);
    if r.contains(e) {
        let i = choose|i: int| 0 <= i < r.len() && r[i] == e;
        assert(t[i + 1] == e);
    }
}

/// An element is in a non-empty `s` exactly when it is the head or in the
/// tail.
pub proof fn lemma_drop_first_contains<T>(s: Seq<T>, e: T)
    requires
        s.len() > 0,
    ensures
        s.contains(e) <==> (e == s[0] || s.drop_first().contains(e)),
{
    if s.contains(e) {
        let i = choose|i: int| 0 <= i < s.len() && s[i] == e;
        if i > 0 {
            assert(s.drop_first()[i - 1] == e);
        }
    }
    if s.drop_first().contains(e) {
        let i = choose|i: int| 0 <= i < s.drop_first().len() && s.drop_first()[i] == e;
        assert(s[i + 1] == e);
    }
}

/// An element is in a non-empty `s` exactly when it is the last or among the
/// rest.
pub proof fn lemma_drop_last_contains<T>(s: Seq<T>, e: T)
    requires
        s.len() > 0,
    ensures
        s.contains(e) <==> (e == s.last() || s.drop_last().contains(e)),
{
    if s.contains(e) {
        let i = choose|i: int| 0 <= i < s.len() && s[i] == e;
        if i < s.len() - 1 {
            assert(s.drop_last()[i] == e);
        }
    }
    if s.drop_last().contains(e) {
        let i = choose|i: int| 0 <= i < s.drop_last().len() && s.drop_last()[i] == e;
        assert(s[i] == e);
    }
}

/// The singleton sequence holds exactly its element.
pub proof fn lemma_singleton_contains<T>(x: T, e: T)
    ensures
        seq![x].contains(e) <==> e == x,
{
    if seq![x].contains(e) {
        let i = choose|i: int| 0 <= i < seq![x].len() && seq![x][i] == e;
    }
    assert(seq![x][0] == x);
}

} // verus!
