//! The order of sequences: element by element from the front.

use vstd::prelude::*;

verus! {

/// `a` comes before `b`: at the first index where their elements differ by
/// the numbers that `key` gives for them, the element of `a` has the smaller
/// number; and a proper prefix comes before the longer sequence.
pub open spec fn lex_less<T>(a: Seq<T>, b: Seq<T>, key: spec_fn(T) -> int) -> bool
    decreases a.len(),
{
    if b.len() == 0 {
        false
    } else if a.len() == 0 {
        true
    } else if key(a[0]) != key(b[0]) {
        key(a[0]) < key(b[0])
    } else {
        lex_less(a.drop_first(), b.drop_first(), key)
    }
}

/// Two sequences of one length that each got one more element at the end
/// compare as the sequences before did, and by the new elements where those
/// sequences were equal.
pub proof fn lemma_lex_less_push<T>(x: Seq<T>, p: T, y: Seq<T>, q: T, key: spec_fn(T) -> int)
    requires
        x.len() == y.len(),
        forall|s: T, t: T| #![trigger key(s), key(t)] key(s) == key(t) ==> s == t,
    ensures
        lex_less(x.push(p), y.push(q), key) <==> lex_less(x, y, key) || (x == y && key(p) < key(
            q,
        )),
    decreases x.len(),
{
    let xp = x.push(p);
    let yq = y.push(q);
    if x.len() == 0 {
        assert(x =~= y);
        assert(xp.drop_first().len() == 0);
        assert(yq.drop_first().len() == 0);
        assert(!lex_less(xp.drop_first(), yq.drop_first(), key));
    } else {
        assert(xp.drop_first() =~= x.drop_first().push(p));
        assert(yq.drop_first() =~= y.drop_first().push(q));
        lemma_lex_less_push(x.drop_first(), p, y.drop_first(), q, key);
        if key(x[0]) == key(y[0]) {
            assert(x[0] == y[0]);
            if x.drop_first() == y.drop_first() {
                assert forall|i: int| 0 <= i < x.len() implies x[i] == y[i] by {
                    if i > 0 {
                        assert(x[i] == x.drop_first()[i - 1]);
                        assert(y[i] == y.drop_first()[i - 1]);
                    }
                }
                assert(x =~= y);
            }
            if x == y {
                assert(x.drop_first() =~= y.drop_first());
            }
        }
    }
}

} // verus!
