//! Lists and their values: taking elements out of a list by their places.

use vstd::prelude::*;

verus! {

/// The values of a sequence of things.
pub open spec fn views<T: View>(s: Seq<T>) -> Seq<T::V> {
    Seq::new(s.len(), |i: int| s[i]@)
}

/// Each position is in range and none occurs twice.
pub open spec fn distinct_in(ids: Seq<usize>, n: nat) -> bool {
    &&& forall|i: int| 0 <= i < ids.len() ==> #[trigger] ids[i] < n
    &&& forall|i: int, j: int| 0 <= i < j < ids.len() ==> ids[i] != ids[j]
}

/// The elements of `s` at the positions `ids`, in the order of `ids`.
pub open spec fn picked<T>(s: Seq<T>, ids: Seq<usize>) -> Seq<T> {
    Seq::new(ids.len(), |k: int| s[ids[k] as int])
}

/// The elements of `s` at positions that are not in `ids`, in their order.
pub open spec fn without<T>(s: Seq<T>, ids: Seq<usize>) -> Seq<T>
    decreases s.len(),
{
    if s.len() == 0 {
        s
    } else {
        let rest = without(s.drop_last(), ids);
        if ids.contains((s.len() - 1) as usize) {
            rest
        } else {
            rest.push(s.last())
        }
    }
}

/// Takes the elements at the positions `ids` out of `v`, in the order of
/// `ids`, and closes the gaps.
pub fn extract<T>(v: &mut Vec<T>, ids: &Vec<usize>) -> (out: Vec<T>)
    requires
        distinct_in(ids@, old(v)@.len()),
    ensures
        out@ == picked(old(v)@, ids@),
        final(v)@ == without(old(v)@, ids@),
{
    let ghost orig = v@;
    let n: usize = v.len();
    let mut slots: Vec<Option<T>> = Vec::new();
    while v.len() > 0
        invariant
            v@.len() + slots@.len() == n,
            n == orig.len(),
            v@ == orig.take(v@.len() as int),
            forall|p: int| 0 <= p < slots@.len() ==> slots@[p] == Some(orig[n - 1 - p]),
        decreases v.len(),
    {
        let x = v.pop();
        slots.push(x);
    }
    let mut out: Vec<T> = Vec::new();
    let mut k: usize = 0;
    while k < ids.len()
        invariant
            k <= ids.len(),
            n == orig.len(),
            slots@.len() == n,
            v@.len() == 0,
            distinct_in(ids@, n as nat),
            out@ == picked(orig, ids@.take(k as int)),
            forall|p: int|
                0 <= p < n ==> #[trigger] slots@[p] == (if ids@.take(k as int).contains(
                    (n - 1 - p) as usize,
                ) {
                    None
                } else {
                    Some(orig[n - 1 - p])
                }),
        decreases ids.len() - k,
    {
        let id = ids[k];
        let pos: usize = n - 1 - id;
        proof {
            if ids@.take(k as int).contains(id) {
                let j = choose|j: int| 0 <= j < k && ids@.take(k as int)[j] == id;
                assert(ids@[j] == ids@[k as int]);
            }
        }
        let ghost before = slots@;
        let slot = &mut slots[pos];
        let x = slot.take();
        proof {
            let now = ids@.take(k + 1);
            let then = ids@.take(k as int);
            assert(now =~= then.push(id));
            assert forall|p: int| 0 <= p < n implies #[trigger] slots@[p] == (if now.contains(
                (n - 1 - p) as usize,
            ) {
                None
            } else {
                Some(orig[n - 1 - p])
            }) by {
                let q = (n - 1 - p) as usize;
                if p == pos {
                    assert(now[k as int] == id);
                } else {
                    assert(slots@[p] == before[p]);
                    if then.contains(q) {
                        let j = choose|j: int| 0 <= j < then.len() && then[j] == q;
                        assert(now[j] == q);
                    }
                    if now.contains(q) {
                        let j = choose|j: int| 0 <= j < now.len() && now[j] == q;
                        assert(j < k);
                        assert(then[j] == q);
                    }
                }
            }
        }
        match x {
            Some(val) => {
                out.push(val);
            },
            None => {
                assert(false);
            },
        }
        assert(out@ =~= picked(orig, ids@.take(k + 1)));
        k += 1;
    }
    assert(ids@.take(ids@.len() as int) =~= ids@);
    let mut i: usize = 0;
    while i < n
        invariant
            i <= n,
            n == orig.len(),
            slots@.len() == n,
            v@ == without(orig.take(i as int), ids@),
            forall|p: int|
                0 <= p < n - i ==> #[trigger] slots@[p] == (if ids@.contains((n - 1 - p) as usize) {
                    None
                } else {
                    Some(orig[n - 1 - p])
                }),
        decreases n - i,
    {
        let slot = &mut slots[n - 1 - i];
        let x = slot.take();
        proof {
            let s = orig.take(i + 1);
            assert(s.drop_last() =~= orig.take(i as int));
            assert(s.last() == orig[i as int]);
        }
        match x {
            Some(val) => {
                v.push(val);
            },
            None => {},
        }
        i += 1;
    }
    assert(orig.take(n as int) =~= orig);
    out
}

/// Taking positions out of a list and taking values commute.
pub proof fn lemma_views_without<T: View>(s: Seq<T>, ids: Seq<usize>)
    ensures
        views(without(s, ids)) == without(views(s), ids),
    decreases s.len(),
{
    if s.len() == 0 {
        assert(views(without(s, ids)) =~= without(views(s), ids));
    } else {
        lemma_views_without(s.drop_last(), ids);
        assert(views(s).drop_last() =~= views(s.drop_last()));
        assert(views(without(s, ids)) =~= without(views(s), ids));
    }
}

/// Every element that stays when positions are taken out was there before,
/// at a place that was not taken.
pub proof fn lemma_without_member<T>(s: Seq<T>, ids: Seq<usize>, j: int) -> (i: int)
    requires
        0 <= j < without(s, ids).len(),
    ensures
        0 <= i < s.len(),
        without(s, ids)[j] == s[i],
        !ids.contains(i as usize),
        j <= i,
    decreases s.len(),
{
    let rest = without(s.drop_last(), ids);
    if ids.contains((s.len() - 1) as usize) || j < rest.len() {
        let i = lemma_without_member(s.drop_last(), ids, j);
        i
    } else {
        lemma_without_len(s.drop_last(), ids);
        s.len() - 1
    }
}

/// Nothing is added when positions are taken out.
pub proof fn lemma_without_len<T>(s: Seq<T>, ids: Seq<usize>)
    ensures
        without(s, ids).len() <= s.len(),
    decreases s.len(),
{
    if s.len() > 0 {
        lemma_without_len(s.drop_last(), ids);
    }
}

/// Each position is in range and each is below the one before it.
pub open spec fn descending_in(ids: Seq<usize>, n: nat) -> bool {
    &&& forall|i: int| 0 <= i < ids.len() ==> #[trigger] ids[i] < n
    &&& forall|i: int, j: int| 0 <= i < j < ids.len() ==> ids[i] > ids[j]
}

/// Each position is in range and each is above the one before it.
pub open spec fn ascending_in(ids: Seq<usize>, n: nat) -> bool {
    &&& forall|i: int| 0 <= i < ids.len() ==> #[trigger] ids[i] < n
    &&& forall|i: int, j: int| 0 <= i < j < ids.len() ==> ids[i] < ids[j]
}

/// The positions in the opposite order.
pub open spec fn reversed(ids: Seq<usize>) -> Seq<usize> {
    Seq::new(ids.len(), |i: int| ids[ids.len() - 1 - i])
}

/// The positions below `n` that are among `ids`, lowest first.
pub open spec fn places_among(n: nat, ids: Seq<usize>) -> Seq<usize>
    decreases n,
{
    if n == 0 {
        Seq::empty()
    } else {
        let rest = places_among((n - 1) as nat, ids);
        if ids.contains((n - 1) as usize) {
            rest.push((n - 1) as usize)
        } else {
            rest
        }
    }
}

/// The positions among `ids` below `n`, lowest first, are ascending, and
/// they are the positions below `n` that `ids` has.
pub proof fn lemma_places_among(n: nat, ids: Seq<usize>)
    requires
        n <= usize::MAX,
    ensures
        places_among(n, ids).len() <= n,
        ascending_in(places_among(n, ids), n),
        distinct_in(places_among(n, ids), n),
        forall|i: int|
            0 <= i < places_among(n, ids).len() ==> ids.contains(#[trigger] places_among(n, ids)[i]),
        forall|x: usize| x < n && ids.contains(x) ==> places_among(n, ids).contains(x),
    decreases n,
{
    if n > 0 {
        let rest = places_among((n - 1) as nat, ids);
        let all = places_among(n, ids);
        lemma_places_among((n - 1) as nat, ids);
        assert forall|x: usize| x < n && ids.contains(x) implies all.contains(x) by {
            if x < n - 1 {
                let j = choose|j: int| 0 <= j < rest.len() && #[trigger] rest[j] == x;
                assert(all[j] == x);
            } else {
                assert(all[all.len() - 1] == x);
            }
        }
    }
}

/// Two lists that have the same positions below `n` give the same places.
pub proof fn lemma_places_same(n: nat, a: Seq<usize>, b: Seq<usize>)
    requires
        forall|x: usize| x < n ==> (a.contains(x) <==> b.contains(x)),
    ensures
        places_among(n, a) == places_among(n, b),
    decreases n,
{
    if n > 0 {
        lemma_places_same((n - 1) as nat, a, b);
    }
}

/// What is left when positions are taken out depends on which positions
/// they are and not on their order.
pub proof fn lemma_without_members<T>(s: Seq<T>, a: Seq<usize>, b: Seq<usize>)
    requires
        forall|x: usize| a.contains(x) <==> b.contains(x),
    ensures
        without(s, a) == without(s, b),
    decreases s.len(),
{
    if s.len() > 0 {
        lemma_without_members(s.drop_last(), a, b);
    }
}

/// Whether `x` is among `v`.
pub fn holds(v: &Vec<usize>, x: usize) -> (r: bool)
    ensures
        r == v@.contains(x),
{
    let mut i: usize = 0;
    while i < v.len()
        invariant
            i <= v.len(),
            forall|j: int| 0 <= j < i ==> v@[j] != x,
        decreases v.len() - i,
    {
        if v[i] == x {
            return true;
        }
        i += 1;
    }
    false
}

/// The positions below `n` that are among `ids`, lowest first.
pub fn ascending(ids: &Vec<usize>, n: usize) -> (r: Vec<usize>)
    ensures
        r@ == places_among(n as nat, ids@),
{
    let mut r: Vec<usize> = Vec::new();
    let mut i: usize = 0;
    while i < n
        invariant
            i <= n,
            r@ == places_among(i as nat, ids@),
        decreases n - i,
    {
        if holds(ids, i) {
            r.push(i);
        }
        i += 1;
    }
    r
}

/// The positions in the opposite order.
pub fn reverse(ids: &Vec<usize>) -> (r: Vec<usize>)
    ensures
        r@ == reversed(ids@),
{
    let mut r: Vec<usize> = Vec::new();
    let mut i: usize = ids.len();
    while i > 0
        invariant
            i <= ids.len(),
            r@ == Seq::new((ids.len() - i) as nat, |k: int| ids@[ids.len() - 1 - k]),
        decreases i,
    {
        i -= 1;
        r.push(ids[i]);
        assert(r@ =~= Seq::new((ids.len() - i) as nat, |k: int| ids@[ids.len() - 1 - k]));
    }
    r
}

/// Whether each of `ids` is below `n` and below the one before it.
pub fn descending(ids: &Vec<usize>, n: usize) -> (r: bool)
    ensures
        r == descending_in(ids@, n as nat),
{
    let mut i: usize = 0;
    while i < ids.len()
        invariant
            i <= ids.len(),
            descending_in(ids@.take(i as int), n as nat),
        decreases ids.len() - i,
    {
        if ids[i] >= n {
            return false;
        }
        if i > 0 && ids[i - 1] <= ids[i] {
            assert(!(ids@[i - 1] > ids@[i as int]));
            return false;
        }
        proof {
            let s = ids@.take(i + 1);
            let t = ids@.take(i as int);
            assert forall|a: int, b: int| 0 <= a < b < s.len() implies s[a] > s[b] by {
                if b < i {
                    assert(t[a] > t[b]);
                } else if a < i - 1 {
                    assert(t[a] > t[i - 1]);
                }
            }
            assert forall|a: int| 0 <= a < s.len() implies #[trigger] s[a] < n by {
                if a < i {
                    assert(t[a] < n);
                }
            }
        }
        i += 1;
    }
    assert(ids@.take(ids.len() as int) =~= ids@);
    true
}

/// Index of the first `x` in `s`, or the length of `s` where there is none.
pub open spec fn position_of(s: Seq<usize>, x: usize) -> nat
    decreases s.len(),
{
    if s.len() == 0 || s[0] == x {
        0
    } else {
        1 + position_of(s.skip(1), x)
    }
}

/// An `x` with none before it, or the end of a list that has none, is what
/// `position_of` finds.
pub proof fn lemma_position_of(s: Seq<usize>, x: usize, n: int)
    requires
        0 <= n <= s.len(),
        forall|j: int| 0 <= j < n ==> s[j] != x,
        n == s.len() || s[n] == x,
    ensures
        position_of(s, x) == n,
    decreases s.len(),
{
    if s.len() == 0 || s[0] == x {
    } else {
        lemma_position_of(s.skip(1), x, n - 1);
    }
}

/// What a list has, `position_of` finds.
pub proof fn lemma_position_found(s: Seq<usize>, x: usize)
    ensures
        position_of(s, x) <= s.len(),
        s.contains(x) ==> position_of(s, x) < s.len() && s[position_of(s, x) as int] == x,
    decreases s.len(),
{
    if s.len() == 0 {
    } else if s[0] == x {
    } else {
        lemma_position_found(s.skip(1), x);
        if s.contains(x) {
            let j = choose|j: int| 0 <= j < s.len() && #[trigger] s[j] == x;
            assert(s.skip(1)[j - 1] == x);
        }
    }
}

/// Index of the first `x` in `v`, or the length of `v`.
pub fn position(v: &Vec<usize>, x: usize) -> (r: usize)
    ensures
        r == position_of(v@, x),
        r <= v.len(),
{
    let mut i: usize = 0;
    while i < v.len() && v[i] != x
        invariant
            i <= v.len(),
            forall|j: int| 0 <= j < i ==> v@[j] != x,
        decreases v.len() - i,
    {
        i += 1;
    }
    proof {
        lemma_position_of(v@, x, i as int);
    }
    i
}

/// Among positions below `n` of which none occurs twice there are as many
/// places as positions.
pub proof fn lemma_places_len(n: nat, ids: Seq<usize>)
    requires
        n <= usize::MAX,
        distinct_in(ids, n),
    ensures
        places_among(n, ids).len() == ids.len(),
    decreases n,
{
    if n == 0 {
        if ids.len() > 0 {
            assert(ids[0] < n);
        }
    } else {
        let top = (n - 1) as usize;
        if ids.contains(top) {
            let j = choose|j: int| 0 <= j < ids.len() && #[trigger] ids[j] == top;
            let rest = ids.remove(j);
            assert(distinct_in(rest, (n - 1) as nat)) by {
                assert forall|i: int| 0 <= i < rest.len() implies #[trigger] rest[i] < n - 1 by {
                    let a = if i < j { i } else { i + 1 };
                    assert(rest[i] == ids[a]);
                    assert(ids[a] < n);
                    if a < j {
                        assert(ids[a] != ids[j]);
                    } else {
                        assert(ids[j] != ids[a]);
                    }
                }
                assert forall|a: int, b: int| 0 <= a < b < rest.len() implies rest[a]
                    != rest[b] by {
                    let a2 = if a < j { a } else { a + 1 };
                    let b2 = if b < j { b } else { b + 1 };
                    assert(ids[a2] != ids[b2]);
                }
            }
            assert forall|x: usize| x < n - 1 implies (ids.contains(x) <==> rest.contains(x)) by {
                if ids.contains(x) {
                    let i = choose|i: int| 0 <= i < ids.len() && #[trigger] ids[i] == x;
                    let r = if i < j { i } else { i - 1 };
                    assert(rest[r] == x);
                }
                if rest.contains(x) {
                    let i = choose|i: int| 0 <= i < rest.len() && #[trigger] rest[i] == x;
                    let a = if i < j { i } else { i + 1 };
                    assert(ids[a] == x);
                }
            }
            lemma_places_same((n - 1) as nat, ids, rest);
            lemma_places_len((n - 1) as nat, rest);
        } else {
            assert(distinct_in(ids, (n - 1) as nat)) by {
                assert forall|i: int| 0 <= i < ids.len() implies #[trigger] ids[i] < n - 1 by {
                    assert(ids.contains(ids[i]));
                    assert(ids[i] < n);
                }
            }
            lemma_places_len((n - 1) as nat, ids);
        }
    }
}

/// Whether each of `ids` is below `n` and none occurs twice.
pub fn distinct(ids: &Vec<usize>, n: usize) -> (r: bool)
    ensures
        r == distinct_in(ids@, n as nat),
{
    let mut i: usize = 0;
    while i < ids.len()
        invariant
            i <= ids.len(),
            distinct_in(ids@.take(i as int), n as nat),
        decreases ids.len() - i,
    {
        if ids[i] >= n {
            return false;
        }
        if holds_before(ids, i) {
            return false;
        }
        proof {
            let s = ids@.take(i + 1);
            assert forall|a: int, b: int| 0 <= a < b < s.len() implies s[a] != s[b] by {
                if b < i {
                    assert(ids@.take(i as int)[a] != ids@.take(i as int)[b]);
                }
            }
            assert forall|a: int| 0 <= a < s.len() implies #[trigger] s[a] < n by {
                if a < i {
                    assert(ids@.take(i as int)[a] < n);
                }
            }
        }
        i += 1;
    }
    assert(ids@.take(ids.len() as int) =~= ids@);
    true
}

/// Whether the position at `i` occurs before `i`.
fn holds_before(ids: &Vec<usize>, i: usize) -> (r: bool)
    requires
        i < ids.len(),
    ensures
        r == exists|k: int| 0 <= k < i && ids@[k] == ids@[i as int],
{
    let mut j: usize = 0;
    while j < i
        invariant
            j <= i < ids.len(),
            forall|k: int| 0 <= k < j ==> ids@[k] != ids@[i as int],
        decreases i - j,
    {
        if ids[j] == ids[i] {
            return true;
        }
        j += 1;
    }
    false
}

/// As many ascending positions below `n` as `n` are all the positions from
/// zero on.
pub proof fn lemma_ascending_full(p: Seq<usize>, n: nat, i: int)
    requires
        ascending_in(p, n),
        p.len() == n,
        0 <= i < n,
    ensures
        p[i] == i,
{
    lemma_ascending_least(p, n, i);
    lemma_ascending_most(p, n, i);
}

proof fn lemma_ascending_least(p: Seq<usize>, n: nat, i: int)
    requires
        ascending_in(p, n),
        0 <= i < p.len(),
    ensures
        p[i] >= i,
    decreases i,
{
    if i > 0 {
        lemma_ascending_least(p, n, i - 1);
        assert(p[i - 1] < p[i]);
    }
}

proof fn lemma_ascending_most(p: Seq<usize>, n: nat, i: int)
    requires
        ascending_in(p, n),
        p.len() == n,
        0 <= i < n,
    ensures
        p[i] <= i,
    decreases n - i,
{
    if i < n - 1 {
        lemma_ascending_most(p, n, i + 1);
        assert(p[i] < p[i + 1]);
    } else {
        assert(p[i] < n);
    }
}

/// As many positions below `n` as `n`, none twice, are all the positions
/// below `n`.
pub proof fn lemma_all_places(order: Seq<usize>, n: nat, j: usize)
    requires
        n <= usize::MAX,
        distinct_in(order, n),
        order.len() == n,
        j < n,
    ensures
        order.contains(j),
{
    lemma_places_len(n, order);
    lemma_places_among(n, order);
    lemma_ascending_full(places_among(n, order), n, j as int);
    assert(order.contains(places_among(n, order)[j as int]));
}

} // verus!
