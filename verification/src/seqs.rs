//! Petits outils sur les vecteurs de valeurs copiables.

use vstd::prelude::*;

verus! {

/// Copie element par element d'une tranche.
pub fn copy_slice<T: Copy>(v: &[T]) -> (r: Vec<T>)
    ensures
        r@ == v@,
{
    let mut r: Vec<T> = Vec::with_capacity(v.len());
    let mut i: usize = 0;
    while i < v.len()
        invariant
            i <= v@.len(),
            r@ == v@.subrange(0, i as int),
        decreases v@.len() - i,
    {
        r.push(v[i]);
        i += 1;
        assert(r@ =~= v@.subrange(0, i as int));
    }
    assert(v@.subrange(0, v@.len() as int) =~= v@);
    r
}

} // verus!

verus! {

/// Filtrer un prefixe d'une case de plus, c'est filtrer le prefixe puis
/// examiner la nouvelle case.
pub proof fn lemma_filter_step<A>(s: Seq<A>, i: int, pred: spec_fn(A) -> bool)
    requires
        0 <= i < s.len(),
    ensures
        s.subrange(0, i + 1).filter(pred) == if pred(s[i]) {
            s.subrange(0, i).filter(pred).push(s[i])
        } else {
            s.subrange(0, i).filter(pred)
        },
{
    reveal(Seq::filter);
    assert(s.subrange(0, i + 1).drop_last() =~= s.subrange(0, i));
}

/// Un element garde par un filtre vient de la suite filtree et verifie le
/// predicat.
pub proof fn lemma_filter_member<A>(s: Seq<A>, pred: spec_fn(A) -> bool, x: A)
    requires
        s.filter(pred).contains(x),
    ensures
        s.contains(x),
        pred(x),
{
    broadcast use vstd::seq_lib::group_filter_ensures;

    let k = choose|k: int| 0 <= k < s.filter(pred).len() && s.filter(pred)[k] == x;
    assert(pred(s.filter(pred)[k]));
    s.lemma_filter_contains_rev(pred, x);
}

/// Si un element de la suite verifie le predicat, le filtre n'est pas vide.
pub proof fn lemma_filter_nonempty<A>(s: Seq<A>, pred: spec_fn(A) -> bool, i: int)
    requires
        0 <= i < s.len(),
        pred(s[i]),
    ensures
        s.filter(pred).len() > 0,
        s.filter(pred).contains(s[i]),
{
    broadcast use vstd::seq_lib::group_filter_ensures;

    assert(s.filter(pred).contains(s[i]));
}

/// `idx` place les elements de `a` dans `b` : meme valeur, positions
/// strictement croissantes.
pub open spec fn subsequence_witness<A>(a: Seq<A>, b: Seq<A>, idx: Seq<int>) -> bool {
    &&& idx.len() == a.len()
    &&& forall|i: int| 0 <= i < idx.len() ==> 0 <= #[trigger] idx[i] < b.len() && b[idx[i]] == a[i]
    &&& forall|i: int, j: int| 0 <= i < j < idx.len() ==> idx[i] < idx[j]
}

/// `a` se lit dans `b` en sautant des elements, sans en changer l'ordre.
pub open spec fn is_subsequence<A>(a: Seq<A>, b: Seq<A>) -> bool {
    exists|idx: Seq<int>| #[trigger] subsequence_witness(a, b, idx)
}

/// Une suite est sous-suite d'elle-meme.
pub proof fn lemma_subsequence_refl<A>(b: Seq<A>)
    ensures
        is_subsequence(b, b),
{
    let idx = Seq::new(b.len(), |i: int| i);
    assert(subsequence_witness(b, b, idx));
}

/// La suite vide est sous-suite de toute suite.
pub proof fn lemma_subsequence_empty<A>(b: Seq<A>)
    ensures
        is_subsequence(Seq::<A>::empty(), b),
{
    assert(subsequence_witness(Seq::<A>::empty(), b, Seq::<int>::empty()));
}

/// Filtrer donne une sous-suite.
pub proof fn lemma_filter_subsequence<A>(b: Seq<A>, pred: spec_fn(A) -> bool)
    ensures
        is_subsequence(b.filter(pred), b),
    decreases b.len(),
{
    reveal(Seq::filter);
    if b.len() == 0 {
        assert(subsequence_witness(b.filter(pred), b, Seq::<int>::empty()));
    } else {
        let rest = b.drop_last();
        lemma_filter_subsequence(rest, pred);
        let idx0 = choose|idx: Seq<int>| #[trigger] subsequence_witness(rest.filter(pred), rest, idx);
        if pred(b.last()) {
            let idx = idx0.push(b.len() - 1);
            assert(subsequence_witness(b.filter(pred), b, idx)) by {
                assert forall|i: int| 0 <= i < idx.len() implies 0 <= #[trigger] idx[i] < b.len()
                    && b[idx[i]] == b.filter(pred)[i] by {
                    if i < idx0.len() {
                        assert(idx[i] == idx0[i]);
                    }
                }
            }
        } else {
            assert(subsequence_witness(b.filter(pred), b, idx0));
        }
    }
}

/// Une sous-suite d'une sous-suite est une sous-suite.
pub proof fn lemma_subsequence_trans<A>(a: Seq<A>, b: Seq<A>, c: Seq<A>)
    requires
        is_subsequence(a, b),
        is_subsequence(b, c),
    ensures
        is_subsequence(a, c),
{
    let ib = choose|idx: Seq<int>| #[trigger] subsequence_witness(a, b, idx);
    let ic = choose|idx: Seq<int>| #[trigger] subsequence_witness(b, c, idx);
    let idx = Seq::new(a.len(), |i: int| ic[ib[i]]);
    assert(subsequence_witness(a, c, idx)) by {
        assert forall|i: int| 0 <= i < idx.len() implies 0 <= #[trigger] idx[i] < c.len() && c[idx[i]]
            == a[i] by {
            assert(0 <= ib[i] < b.len());
        }
        assert forall|i: int, j: int| 0 <= i < j < idx.len() implies idx[i] < idx[j] by {
            assert(ib[i] < ib[j]);
            assert(0 <= ib[j] < b.len());
        }
    }
}

} // verus!
