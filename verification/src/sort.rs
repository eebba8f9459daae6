//! Putting records in the order of time.

use vstd::prelude::*;

verus! {

/// A record that has a place in time.
pub trait Timed: Copy {
    spec fn time_key(&self) -> int;

    /// Whether `a` is earlier than `b`.
    fn earlier(a: &Self, b: &Self) -> (r: bool)
        ensures
            r == (a.time_key() < b.time_key()),
    ;
}

/// `s` with `x` put behind the last record that is not later than `x`.
pub open spec fn inserted<T: Timed>(s: Seq<T>, x: T) -> Seq<T>
    decreases s.len(),
{
    if s.len() == 0 || s.last().time_key() <= x.time_key() {
        s.push(x)
    } else {
        inserted(s.drop_last(), x).push(s.last())
    }
}

/// The records of `s` in the order of time, those of the same time as they stood.
pub open spec fn by_time<T: Timed>(s: Seq<T>) -> Seq<T>
    decreases s.len(),
{
    if s.len() == 0 {
        s
    } else {
        inserted(by_time(s.drop_last()), s.last())
    }
}

/// Whether no record stands before an earlier one.
pub open spec fn in_order<T: Timed>(s: Seq<T>) -> bool {
    forall|i: int, j: int| 0 <= i < j < s.len() ==> s[i].time_key() <= s[j].time_key()
}

/// The records of one time, as they stand.
pub open spec fn at_time<T: Timed>(s: Seq<T>, key: int) -> Seq<T>
    decreases s.len(),
{
    if s.len() == 0 {
        s
    } else if s.last().time_key() == key {
        at_time(s.drop_last(), key).push(s.last())
    } else {
        at_time(s.drop_last(), key)
    }
}

/// Sorts records by time, those of the same time as they stood.
pub fn sort_by_time<T: Timed>(records: &Vec<T>) -> (r: Vec<T>)
    ensures
        r@ == by_time(records@),
{
    let mut sorted: Vec<T> = Vec::new();
    let mut i: usize = 0;
    while i < records.len()
        invariant
            i <= records@.len(),
            sorted@ == by_time(records@.take(i as int)),
        decreases records@.len() - i,
    {
        let x = records[i];
        let ghost before = sorted@;
        proof {
            assert(records@.take(i + 1).drop_last() =~= records@.take(i as int));
        }
        let mut at: usize = sorted.len();
        while at > 0 && T::earlier(&x, &sorted[at - 1])
            invariant
                at <= sorted@.len(),
                sorted@ == before,
                forall|j: int| at <= j < before.len() ==> x.time_key() < before[j].time_key(),
            decreases at,
        {
            at = at - 1;
        }
        sorted.insert(at, x);
        proof {
            lemma_inserted(before, x, at as int);
        }
        i = i + 1;
    }
    assert(records@.take(i as int) =~= records@);
    sorted
}

proof fn lemma_inserted<T: Timed>(s: Seq<T>, x: T, at: int)
    requires
        0 <= at <= s.len(),
        at > 0 ==> s[at - 1].time_key() <= x.time_key(),
        forall|j: int| at <= j < s.len() ==> x.time_key() < s[j].time_key(),
    ensures
        inserted(s, x) == s.insert(at, x),
    decreases s.len(),
{
    if at == s.len() {
        assert(s.insert(at, x) =~= s.push(x));
    } else {
        lemma_inserted(s.drop_last(), x, at);
        assert(s.drop_last().insert(at, x).push(s.last()) =~= s.insert(at, x));
    }
}

proof fn lemma_inserted_in_order<T: Timed>(s: Seq<T>, x: T)
    requires
        in_order(s),
    ensures
        in_order(inserted(s, x)),
        inserted(s, x).len() == s.len() + 1,
        forall|i: int|
            0 <= i <= s.len() ==> (#[trigger] inserted(s, x)[i]).time_key() <= if s.len() > 0
                && s.last().time_key() > x.time_key() {
                s.last().time_key()
            } else {
                x.time_key()
            },
    decreases s.len(),
{
    if s.len() == 0 || s.last().time_key() <= x.time_key() {
    } else {
        lemma_inserted_in_order(s.drop_last(), x);
    }
}

/// Sorted records stand in the order of time.
pub proof fn law_by_time_in_order<T: Timed>(s: Seq<T>)
    ensures
        in_order(by_time(s)),
        by_time(s).len() == s.len(),
    decreases s.len(),
{
    if s.len() > 0 {
        law_by_time_in_order(s.drop_last());
        lemma_inserted_in_order(by_time(s.drop_last()), s.last());
    }
}

proof fn lemma_at_time_inserted<T: Timed>(s: Seq<T>, x: T, key: int)
    ensures
        at_time(inserted(s, x), key) == at_time(s.push(x), key),
    decreases s.len(),
{
    reveal_with_fuel(at_time, 3);
    assert(s.push(x).drop_last() =~= s);
    if s.len() == 0 || s.last().time_key() <= x.time_key() {
    } else {
        let t = s.drop_last();
        lemma_at_time_inserted(t, x, key);
        assert(t.push(x).drop_last() =~= t);
        assert(inserted(t, x).push(s.last()).drop_last() =~= inserted(t, x));
    }
}

/// Sorting keeps every record, and keeps records of the same time in their order.
pub proof fn law_by_time_stable<T: Timed>(s: Seq<T>, key: int)
    ensures
        at_time(by_time(s), key) == at_time(s, key),
    decreases s.len(),
{
    if s.len() > 0 {
        let t = s.drop_last();
        law_by_time_stable(t, key);
        lemma_at_time_inserted(by_time(t), s.last(), key);
        assert(by_time(t).push(s.last()).drop_last() =~= by_time(t));
    }
}

/// Records that stand in the order of time are left as they stand.
pub proof fn law_by_time_keeps_order<T: Timed>(s: Seq<T>)
    requires
        in_order(s),
    ensures
        by_time(s) == s,
    decreases s.len(),
{
    if s.len() > 0 {
        let t = s.drop_last();
        law_by_time_keeps_order(t);
        if t.len() > 0 {
            assert(s[t.len() - 1].time_key() <= s[s.len() - 1].time_key());
        }
        assert(t.push(s.last()) =~= s);
    }
}

/// Whether two lists hold the same records of every time, in the same order.
pub open spec fn same_at_every_time<T: Timed>(a: Seq<T>, b: Seq<T>) -> bool {
    forall|key: int| #[trigger] at_time(a, key) == at_time(b, key)
}

/// The records of a time that no record has are none.
pub proof fn lemma_none_at_time<T: Timed>(s: Seq<T>, key: int)
    requires
        forall|i: int| 0 <= i < s.len() ==> (#[trigger] s[i]).time_key() != key,
    ensures
        at_time(s, key).len() == 0,
    decreases s.len(),
{
    if s.len() > 0 {
        assert(s[s.len() - 1].time_key() != key);
        lemma_none_at_time(s.drop_last(), key);
    }
}

/// Where a list has a record of the last time of another, its own last time is not earlier.
proof fn lemma_last_time<T: Timed>(s: Seq<T>, key: int)
    requires
        in_order(s),
        at_time(s, key).len() > 0,
    ensures
        s.len() > 0,
        key <= s.last().time_key(),
{
    if forall|i: int| 0 <= i < s.len() ==> (#[trigger] s[i]).time_key() != key {
        lemma_none_at_time(s, key);
    }
    let i = choose|i: int| 0 <= i < s.len() && (#[trigger] s[i]).time_key() == key;
    if i < s.len() - 1 {
        assert(s[i].time_key() <= s[s.len() - 1].time_key());
    }
}

/// Lists in the order of time that hold the same records of every time are the same.
proof fn lemma_same_in_order<T: Timed>(a: Seq<T>, b: Seq<T>)
    requires
        in_order(a),
        in_order(b),
        same_at_every_time(a, b),
    ensures
        a == b,
    decreases a.len(),
{
    if a.len() == 0 {
        if b.len() > 0 {
            let key = b.last().time_key();
            assert(at_time(a, key) == at_time(b, key));
            assert(at_time(b, key).len() > 0);
        }
        assert(a =~= b);
    } else {
        let key = a.last().time_key();
        assert(at_time(a, key) == at_time(b, key));
        lemma_last_time(b, key);
        let last = b.last().time_key();
        assert(at_time(a, last) == at_time(b, last));
        lemma_last_time(a, last);
        assert(at_time(a, key).last() == a.last());
        assert(at_time(b, key).last() == b.last());
        let s = a.drop_last();
        let t = b.drop_last();
        assert forall|k: int| #[trigger] at_time(s, k) == at_time(t, k) by {
            assert(at_time(a, k) == at_time(b, k));
            if k == key {
                assert(at_time(s, k) =~= at_time(a, k).drop_last());
                assert(at_time(t, k) =~= at_time(b, k).drop_last());
            }
        }
        assert forall|i: int, j: int| 0 <= i < j < s.len() implies s[i].time_key()
            <= s[j].time_key() by {
            assert(a[i].time_key() <= a[j].time_key());
        }
        assert forall|i: int, j: int| 0 <= i < j < t.len() implies t[i].time_key()
            <= t[j].time_key() by {
            assert(b[i].time_key() <= b[j].time_key());
        }
        lemma_same_in_order(s, t);
        assert(a =~= s.push(a.last()));
        assert(b =~= t.push(b.last()));
    }
}

/// Sorting does not depend on how records of different times stand.
pub proof fn law_by_time_forgets_order<T: Timed>(a: Seq<T>, b: Seq<T>)
    requires
        same_at_every_time(a, b),
    ensures
        by_time(a) == by_time(b),
{
    law_by_time_in_order(a);
    law_by_time_in_order(b);
    assert forall|key: int| #[trigger] at_time(by_time(a), key) == at_time(by_time(b), key) by {
        law_by_time_stable(a, key);
        law_by_time_stable(b, key);
        assert(at_time(a, key) == at_time(b, key));
    }
    lemma_same_in_order(by_time(a), by_time(b));
}

/// Two neighbours of different times may change places without changing what there is of any
/// time.
pub proof fn law_neighbours_may_swap<T: Timed>(s: Seq<T>, n: int)
    requires
        0 <= n,
        n + 1 < s.len(),
        s[n].time_key() != s[n + 1].time_key(),
    ensures
        same_at_every_time(s, s.update(n, s[n + 1]).update(n + 1, s[n])),
    decreases s.len(),
{
    let swapped = s.update(n, s[n + 1]).update(n + 1, s[n]);
    if n + 2 == s.len() {
        let rest = s.take(n);
        assert forall|key: int| #[trigger] at_time(s, key) == at_time(swapped, key) by {
            reveal_with_fuel(at_time, 3);
            assert(s.drop_last().drop_last() =~= rest);
            assert(swapped.drop_last().drop_last() =~= rest);
        }
    } else {
        let t = s.drop_last();
        law_neighbours_may_swap(t, n);
        assert(t.update(n, t[n + 1]).update(n + 1, t[n]) =~= swapped.drop_last());
        assert forall|key: int| #[trigger] at_time(s, key) == at_time(swapped, key) by {
            assert(at_time(t, key) == at_time(swapped.drop_last(), key));
        }
    }
}

} // verus!
