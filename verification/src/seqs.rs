//! Sequences without one of their values.

use vstd::prelude::*;

verus! {

/// The items of `s` other than `x`, in their order.
pub open spec fn without<A>(s: Seq<A>, x: A) -> Seq<A> {
    s.filter(|y: A| y != x)
}

/// Taking out a value that does not occur changes nothing.
pub proof fn lemma_without_absent<A>(s: Seq<A>, x: A)
    requires
        !s.contains(x),
    ensures
        without(s, x) == s,
    decreases s.len(),
{
    reveal(Seq::filter);
    if s.len() > 0 {
        let front = s.drop_last();
        assert(s.last() == s[s.len() - 1]);
        assert forall|y: A| front.contains(y) implies s.contains(y) by {
            let j = front.index_of(y);
            assert(s[j] == y);
        }
        lemma_without_absent(front, x);
        assert(front.push(s.last()) =~= s);
    }
}

/// Among items that are all different, taking out the value at `i` removes
/// item `i`.
pub proof fn lemma_without_remove<A>(s: Seq<A>, i: int)
    requires
        s.no_duplicates(),
        0 <= i < s.len(),
    ensures
        without(s, s[i]) == s.remove(i),
    decreases s.len(),
{
    reveal(Seq::filter);
    let x = s[i];
    let front = s.drop_last();
    if i == s.len() - 1 {
        assert(!front.contains(x)) by {
            if front.contains(x) {
                let j = front.index_of(x);
                assert(s[j] == x);
            }
        }
        lemma_without_absent(front, x);
        assert(s.remove(i) =~= front);
    } else {
        assert(front[i] == x);
        lemma_without_remove(front, i);
        assert(s.last() == s[s.len() - 1]);
        assert(s.remove(i) =~= front.remove(i).push(s.last()));
    }
}

/// What is left holds exactly the other items, and holds none of them twice
/// if `s` held none twice.
pub proof fn lemma_without<A>(s: Seq<A>, x: A)
    ensures
        forall|y: A| #[trigger] without(s, x).contains(y) <==> s.contains(y) && y != x,
        s.no_duplicates() ==> without(s, x).no_duplicates(),
        without(s, x).len() <= s.len(),
    decreases s.len(),
{
    reveal(Seq::filter);
    if s.len() > 0 {
        let front = s.drop_last();
        let last = s.last();
        lemma_without(front, x);
        let rest = without(front, x);
        assert forall|y: A| #[trigger] without(s, x).contains(y) <==> s.contains(y) && y != x by {
            if s.contains(y) {
                let j = s.index_of(y);
                if j < s.len() - 1 {
                    assert(front[j] == y);
                    assert(front.contains(y));
                }
            }
            if front.contains(y) {
                let j = front.index_of(y);
                assert(s[j] == y);
            }
            if last != x {
                assert(without(s, x) == rest.push(last));
                if rest.contains(y) {
                    let j = rest.index_of(y);
                    assert(rest.push(last)[j] == y);
                }
                if y == last {
                    assert(rest.push(last)[rest.len() as int] == y);
                    assert(s[s.len() - 1] == y);
                }
                if without(s, x).contains(y) {
                    let j = without(s, x).index_of(y);
                    if j < rest.len() {
                        assert(rest[j] == y);
                    }
                }
            }
        }
        if s.no_duplicates() && last != x {
            assert(front.no_duplicates());
            assert(!rest.contains(last)) by {
                if rest.contains(last) {
                    let j = front.index_of(last);
                    assert(s[j] == s[s.len() - 1]);
                }
            }
            assert forall|a: int, b: int|
                0 <= a < rest.len() + 1 && 0 <= b < rest.len() + 1 && a != b implies rest.push(
                last,
            )[a] != rest.push(last)[b] by {
                if a < rest.len() {
                    assert(rest.contains(rest[a]));
                }
                if b < rest.len() {
                    assert(rest.contains(rest[b]));
                }
            }
        }
    }
}

} // verus!
