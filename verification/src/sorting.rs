//! Lists ordered by time. What falls on the same time keeps its order.
use vstd::prelude::*;

verus! {

/// Something with a place on a time axis.
pub trait Timed: Copy {
    /// The place.
    spec fn time(self) -> int;

    /// The place.
    fn ticks(&self) -> (r: u64)
        ensures
            r == self.time(),
    ;
}

/// `x` put into a list that is ordered by time, behind those that come no
/// later.
pub open spec fn insert_timed<T: Timed>(s: Seq<T>, x: T) -> Seq<T>
    decreases s.len(),
{
    if s.len() > 0 && s.last().time() > x.time() {
        insert_timed(s.drop_last(), x).push(s.last())
    } else {
        s.push(x)
    }
}

/// A list ordered by time; what falls on the same time keeps its order.
pub open spec fn by_time<T: Timed>(s: Seq<T>) -> Seq<T>
    decreases s.len(),
{
    if s.len() == 0 {
        Seq::empty()
    } else {
        insert_timed(by_time(s.drop_last()), s.last())
    }
}

/// Whether each comes no later than those behind it.
pub open spec fn in_time<T: Timed>(s: Seq<T>) -> bool {
    forall|i: int, j: int| 0 <= i <= j < s.len() ==> (#[trigger] s[i]).time() <= (#[trigger] s[j]).time()
}

/// Inserting behind the last that comes no later.
proof fn lemma_insert_timed<T: Timed>(s: Seq<T>, x: T, k: int)
    requires
        0 <= k <= s.len(),
        k > 0 ==> s[k - 1].time() <= x.time(),
        forall|i: int| k <= i < s.len() ==> (#[trigger] s[i]).time() > x.time(),
    ensures
        insert_timed(s, x) == s.insert(k, x),
    decreases s.len(),
{
    if k < s.len() {
        assert(s[s.len() - 1].time() > x.time());
        lemma_insert_timed(s.drop_last(), x, k);
        assert(s.drop_last().insert(k, x).push(s.last()) =~= s.insert(k, x));
    } else {
        assert(s.push(x) =~= s.insert(k, x));
    }
}

/// Order a list by time.
pub fn sort_by_time<T: Timed>(v: &Vec<T>) -> (out: Vec<T>)
    ensures
        out@ == by_time(v@),
{
    let mut out: Vec<T> = Vec::new();
    let mut i: usize = 0;
    while i < v.len()
        invariant
            i <= v@.len(),
            out@ == by_time(v@.take(i as int)),
        decreases v@.len() - i,
    {
        let x = v[i];
        proof {
            assert(v@.take(i + 1).drop_last() =~= v@.take(i as int));
            assert(v@.take(i + 1).last() == x);
        }
        let mut k: usize = out.len();
        while k > 0 && out[k - 1].ticks() > x.ticks()
            invariant
                k <= out@.len(),
                forall|y: int| k <= y < out@.len() ==> (#[trigger] out@[y]).time() > x.time(),
            decreases k,
        {
            k -= 1;
        }
        proof {
            lemma_insert_timed(out@, x, k as int);
        }
        out.insert(k, x);
        i += 1;
    }
    assert(v@.take(i as int) =~= v@);
    out
}

proof fn lemma_insert_in_time<T: Timed>(s: Seq<T>, x: T)
    requires
        in_time(s),
    ensures
        in_time(insert_timed(s, x)),
        insert_timed(s, x).len() == s.len() + 1,
        insert_timed(s, x).to_multiset() == s.to_multiset().insert(x),
        forall|i: int|
            0 <= i < insert_timed(s, x).len() ==> (#[trigger] insert_timed(s, x)[i]).time()
                <= x.time() || (s.len() > 0 && insert_timed(s, x)[i].time() <= s.last().time()),
    decreases s.len(),
{
    broadcast use vstd::seq_lib::group_to_multiset_ensures;

    let r = insert_timed(s, x);
    if s.len() > 0 && s.last().time() > x.time() {
        let t = s.drop_last();
        lemma_insert_in_time(t, x);
        let q = insert_timed(t, x);
        assert(s =~= t.push(s.last()));
        assert forall|i: int| 0 <= i < r.len() implies (#[trigger] r[i]).time()
            <= s.last().time() by {
            if i < q.len() {
                assert(r[i] == q[i]);
                if t.len() > 0 {
                    assert(t.last() == s[t.len() - 1]);
                }
            }
        }
        assert forall|i: int, j: int| 0 <= i <= j < r.len() implies (#[trigger] r[i]).time() <= (
        #[trigger] r[j]).time() by {
            if j < q.len() {
                assert(r[i] == q[i] && r[j] == q[j]);
            }
        }
    } else {
        assert forall|i: int, j: int| 0 <= i <= j < r.len() implies (#[trigger] r[i]).time() <= (
        #[trigger] r[j]).time() by {
            if j == s.len() && i < s.len() {
                assert(r[i] == s[i]);
            }
        }
    }
}

/// Ordering a list loses nothing, adds nothing, and puts it in order.
pub proof fn lemma_by_time<T: Timed>(s: Seq<T>)
    ensures
        in_time(by_time(s)),
        by_time(s).len() == s.len(),
        by_time(s).to_multiset() == s.to_multiset(),
    decreases s.len(),
{
    broadcast use vstd::seq_lib::group_to_multiset_ensures;

    if s.len() > 0 {
        lemma_by_time(s.drop_last());
        lemma_insert_in_time(by_time(s.drop_last()), s.last());
        assert(s =~= s.drop_last().push(s.last()));
    }
}

/// Ordering a list that is in order changes nothing.
pub proof fn lemma_by_time_in_time<T: Timed>(s: Seq<T>)
    requires
        in_time(s),
    ensures
        by_time(s) == s,
    decreases s.len(),
{
    if s.len() > 0 {
        let t = s.drop_last();
        assert(in_time(t)) by {
            assert forall|i: int, j: int| 0 <= i <= j < t.len() implies (#[trigger] t[i]).time()
                <= (#[trigger] t[j]).time() by {
                assert(s[i].time() <= s[j].time());
            }
        }
        lemma_by_time_in_time(t);
        if t.len() > 0 {
            assert(s[t.len() - 1].time() <= s[s.len() - 1].time());
        }
        assert(s =~= t.push(s.last()));
    } else {
        assert(s =~= Seq::empty());
    }
}

/// What of a list falls on a time.
pub open spec fn falling_on<T: Timed>(s: Seq<T>, t: int) -> Seq<T>
    decreases s.len(),
{
    if s.len() == 0 {
        Seq::empty()
    } else if s.last().time() == t {
        falling_on(s.drop_last(), t).push(s.last())
    } else {
        falling_on(s.drop_last(), t)
    }
}

proof fn lemma_falling_push<T: Timed>(s: Seq<T>, x: T, t: int)
    ensures
        falling_on(s.push(x), t) == if x.time() == t {
            falling_on(s, t).push(x)
        } else {
            falling_on(s, t)
        },
{
    assert(s.push(x).drop_last() =~= s);
}

proof fn lemma_insert_keeps_order<T: Timed>(s: Seq<T>, x: T, t: int)
    ensures
        falling_on(insert_timed(s, x), t) == falling_on(s.push(x), t),
    decreases s.len(),
{
    lemma_falling_push(s, x, t);
    if s.len() > 0 && s.last().time() > x.time() {
        let front = s.drop_last();
        lemma_insert_keeps_order(front, x, t);
        lemma_falling_push(front, x, t);
        lemma_falling_push(insert_timed(front, x), s.last(), t);
    }
}

/// What falls on the same time keeps its order.
pub proof fn lemma_by_time_keeps_order<T: Timed>(s: Seq<T>, t: int)
    ensures
        falling_on(by_time(s), t) == falling_on(s, t),
    decreases s.len(),
{
    if s.len() > 0 {
        let front = s.drop_last();
        lemma_by_time_keeps_order(front, t);
        lemma_insert_keeps_order(by_time(front), s.last(), t);
        lemma_falling_push(by_time(front), s.last(), t);
    }
}

} // verus!
