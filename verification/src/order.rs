//! Stable ordering of color stops by position.
use vstd::prelude::*;

use crate::config::Stop;

verus! {

/// `s` with `x` placed after every trailing element whose position is not
/// greater than that of `x`: one step of a stable insertion sort.
pub open spec fn insert_by_position(s: Seq<Stop>, x: Stop) -> Seq<Stop>
    decreases s.len(),
{
    if s.len() == 0 {
        seq![x]
    } else if s.last().position <= x.position {
        s.push(x)
    } else {
        insert_by_position(s.drop_last(), x).push(s.last())
    }
}

/// `s` ordered by position, stops of equal position keeping their order.
pub open spec fn sort_by_position(s: Seq<Stop>) -> Seq<Stop>
    decreases s.len(),
{
    if s.len() == 0 {
        s
    } else {
        insert_by_position(sort_by_position(s.drop_last()), s.last())
    }
}

fn insert_stop(r: &mut Vec<Stop>, x: Stop)
    ensures
        final(r)@ == insert_by_position(old(r)@, x),
{
    let mut k = r.len();
    assert(r@.take(k as int) =~= r@);
    assert(r@.skip(k as int) =~= Seq::<Stop>::empty());
    assert(insert_by_position(r@, x) =~= insert_by_position(r@.take(k as int), x) + r@.skip(
        k as int,
    ));
    while k > 0 && r[k - 1].position > x.position
        invariant
            k <= r@.len(),
            r@ == old(r)@,
            insert_by_position(r@, x) == insert_by_position(r@.take(k as int), x) + r@.skip(
                k as int,
            ),
        decreases k,
    {
        proof {
            let t = r@.take(k as int);
            assert(t.drop_last() =~= r@.take(k - 1));
            assert(t.last() == r@[k - 1]);
            let a = insert_by_position(r@.take(k - 1), x);
            assert(insert_by_position(t, x) == a.push(r@[k - 1]));
            assert(r@.skip(k - 1) =~= seq![r@[k - 1]] + r@.skip(k as int));
            assert(a.push(r@[k - 1]) + r@.skip(k as int) =~= a + r@.skip(k - 1));
        }
        k = k - 1;
    }
    proof {
        let t = r@.take(k as int);
        if k > 0 {
            assert(t.last() == r@[k - 1]);
        }
        assert(insert_by_position(t, x) =~= t.push(x));
        assert(r@.insert(k as int, x) =~= t.push(x) + r@.skip(k as int));
    }
    r.insert(k, x);
}

/// A copy of `stops` ordered by position; stops of equal position keep their
/// relative order.
pub fn sort_stops(stops: &Vec<Stop>) -> (r: Vec<Stop>)
    ensures
        r@ == sort_by_position(stops@),
{
    let mut r: Vec<Stop> = Vec::new();
    let n = stops.len();
    let mut i: usize = 0;
    while i < n
        invariant
            n == stops@.len(),
            i <= n,
            r@ == sort_by_position(stops@.take(i as int)),
        decreases n - i,
    {
        proof {
            let t = stops@.take(i + 1);
            assert(t.drop_last() =~= stops@.take(i as int));
            assert(t.last() == stops@[i as int]);
        }
        insert_stop(&mut r, stops[i]);
        i = i + 1;
    }
    assert(stops@.take(n as int) =~= stops@);
    r
}

/// Positions never decrease along `s`.
pub open spec fn positions_ordered(s: Seq<Stop>) -> bool {
    forall|i: int, j: int| 0 <= i < j < s.len() ==> s[i].position <= s[j].position
}

/// The stops of `s` whose position is `p`, in order.
pub open spec fn with_position(s: Seq<Stop>, p: u8) -> Seq<Stop>
    decreases s.len(),
{
    if s.len() == 0 {
        s
    } else if s.last().position == p {
        with_position(s.drop_last(), p).push(s.last())
    } else {
        with_position(s.drop_last(), p)
    }
}

proof fn lemma_insert_bounded(s: Seq<Stop>, x: Stop, b: u8)
    requires
        forall|i: int| 0 <= i < s.len() ==> s[i].position <= b,
        x.position <= b,
    ensures
        forall|i: int|
            0 <= i < insert_by_position(s, x).len() ==> insert_by_position(s, x)[i].position <= b,
    decreases s.len(),
{
    let r = insert_by_position(s, x);
    if s.len() == 0 {
        assert(r[0] == x);
    } else if s.last().position <= x.position {
        assert forall|i: int| 0 <= i < r.len() implies r[i].position <= b by {
            if i < s.len() {
                assert(r[i] == s[i]);
            } else {
                assert(r[i] == x);
            }
        }
    } else {
        let t = s.drop_last();
        assert forall|i: int| 0 <= i < t.len() implies t[i].position <= b by {
            assert(t[i] == s[i]);
        }
        lemma_insert_bounded(t, x, b);
        let u = insert_by_position(t, x);
        assert forall|i: int| 0 <= i < r.len() implies r[i].position <= b by {
            if i < u.len() {
                assert(r[i] == u[i]);
            } else {
                assert(r[i] == s.last());
            }
        }
    }
}

proof fn lemma_insert_ordered(s: Seq<Stop>, x: Stop)
    requires
        positions_ordered(s),
    ensures
        positions_ordered(insert_by_position(s, x)),
        insert_by_position(s, x).len() == s.len() + 1,
    decreases s.len(),
{
    if s.len() == 0 {
    } else if s.last().position <= x.position {
    } else {
        let t = s.drop_last();
        let last = s.last();
        assert forall|i: int, j: int| 0 <= i < j < t.len() implies t[i].position
            <= t[j].position by {
            assert(t[i] == s[i] && t[j] == s[j]);
        }
        lemma_insert_ordered(t, x);
        assert forall|i: int| 0 <= i < t.len() implies t[i].position <= last.position by {
            assert(t[i] == s[i]);
        }
        lemma_insert_bounded(t, x, last.position);
    }
}

/// Sorting by position leaves positions in nondecreasing order.
pub proof fn lemma_sort_ordered(s: Seq<Stop>)
    ensures
        positions_ordered(sort_by_position(s)),
        sort_by_position(s).len() == s.len(),
    decreases s.len(),
{
    if s.len() > 0 {
        lemma_sort_ordered(s.drop_last());
        lemma_insert_ordered(sort_by_position(s.drop_last()), s.last());
    }
}

proof fn lemma_insert_multiset(s: Seq<Stop>, x: Stop)
    ensures
        insert_by_position(s, x).to_multiset() =~= s.to_multiset().insert(x),
    decreases s.len(),
{
    broadcast use vstd::seq_lib::group_to_multiset_ensures;

    if s.len() == 0 {
        assert(seq![x] =~= Seq::<Stop>::empty().push(x));
    } else if s.last().position <= x.position {
    } else {
        let t = s.drop_last();
        lemma_insert_multiset(t, x);
        assert(t.push(s.last()) =~= s);
    }
}

/// Sorting by position keeps every stop, as often as it occurs.
pub proof fn lemma_sort_permutes(s: Seq<Stop>)
    ensures
        sort_by_position(s).to_multiset() =~= s.to_multiset(),
    decreases s.len(),
{
    broadcast use vstd::seq_lib::group_to_multiset_ensures;

    if s.len() == 0 {
    } else {
        let t = s.drop_last();
        lemma_sort_permutes(t);
        lemma_insert_multiset(sort_by_position(t), s.last());
        assert(t.push(s.last()) =~= s);
    }
}

proof fn lemma_insert_with_position(s: Seq<Stop>, x: Stop, p: u8)
    ensures
        with_position(insert_by_position(s, x), p) == if x.position == p {
            with_position(s, p).push(x)
        } else {
            with_position(s, p)
        },
    decreases s.len(),
{
    if s.len() == 0 {
        let one = seq![x];
        assert(one.drop_last() =~= s);
        assert(one.last() == x);
        assert(insert_by_position(s, x) == one);
        assert(with_position(s, p) == s);
        assert(with_position(s, p).push(x) =~= one);
    } else if s.last().position <= x.position {
        let r = s.push(x);
        assert(r.drop_last() =~= s);
        assert(r.last() == x);
        assert(insert_by_position(s, x) == r);
    } else {
        let t = s.drop_last();
        let last = s.last();
        lemma_insert_with_position(t, x, p);
        let u = insert_by_position(t, x);
        let r = u.push(last);
        assert(r.drop_last() =~= u);
        assert(r.last() == last);
        assert(insert_by_position(s, x) == r);
        if last.position == p {
            assert(with_position(r, p) == with_position(u, p).push(last));
            assert(with_position(s, p) == with_position(t, p).push(last));
        } else {
            assert(with_position(r, p) == with_position(u, p));
            assert(with_position(s, p) == with_position(t, p));
            if x.position == p {
                assert(with_position(u, p) == with_position(t, p).push(x));
            }
        }
    }
}

/// Sorting by position is stable: the stops that share a position keep their
/// relative order.
pub proof fn lemma_sort_stable(s: Seq<Stop>, p: u8)
    ensures
        with_position(sort_by_position(s), p) == with_position(s, p),
    decreases s.len(),
{
    if s.len() > 0 {
        let t = s.drop_last();
        lemma_sort_stable(t, p);
        lemma_insert_with_position(sort_by_position(t), s.last(), p);
    }
}

} // verus!
