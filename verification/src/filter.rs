use vstd::multiset::Multiset;
use vstd::prelude::*;
use vstd::relations::{sorted_by, total_ordering};
use vstd::seq_lib::{lemma_multiset_commutative, lemma_sorted_unique};

verus! {

// ---------------------------------------------------------------------------
// The sample ring, an outside fixed-capacity circular buffer
// ---------------------------------------------------------------------------

#[verifier::external_type_specification]
#[verifier::external_body]
#[verifier::reject_recursive_types(T)]
pub struct ExFixedCircularBuffer<T, const N: usize>(circular_buffer::FixedCircularBuffer<T, N>);

/// The offset samples the ring holds, front to back, in microseconds.
pub uninterp spec fn ring_samples(b: circular_buffer::FixedCircularBuffer<i64, 10>) -> Seq<i64>;

/// Relies on FixedCircularBuffer::new: a fresh ring holds nothing.
#[verifier::external_body]
fn ring_new() -> (r: circular_buffer::FixedCircularBuffer<i64, 10>)
    ensures
        ring_samples(r) == Seq::<i64>::empty(),
{
    circular_buffer::FixedCircularBuffer::new()
}

/// Relies on CircularBuffer::push_back: appends at the back and, once the
/// ten slots are full, overwrites and returns the front element.
#[verifier::external_body]
fn ring_push(b: &mut circular_buffer::FixedCircularBuffer<i64, 10>, v: i64)
    ensures
        ring_samples(*final(b)) == (if ring_samples(*old(b)).len() < 10 {
            ring_samples(*old(b)).push(v)
        } else {
            ring_samples(*old(b)).drop_first().push(v)
        }),
{
    b.push_back(v);
}

/// Relies on CircularBuffer::len: the number of elements held.
#[verifier::external_body]
fn ring_len(b: &circular_buffer::FixedCircularBuffer<i64, 10>) -> (r: usize)
    ensures
        r == ring_samples(*b).len(),
{
    b.len()
}

/// Relies on CircularBuffer::iter: the elements front to back.
#[verifier::external_body]
fn ring_to_vec(b: &circular_buffer::FixedCircularBuffer<i64, 10>) -> (r: Vec<i64>)
    ensures
        r@ == ring_samples(*b),
{
    b.iter().copied().collect()
}

// ---------------------------------------------------------------------------
// Sorting and the median
// ---------------------------------------------------------------------------

pub open spec fn leq() -> spec_fn(i64, i64) -> bool {
    |a: i64, b: i64| a <= b
}

pub proof fn lemma_leq_total()
    ensures
        total_ordering(leq()),
{
    let r = leq();
    assert forall|x: i64, y: i64| #[trigger] r(x, y) || #[trigger] r(y, x) by {}
}

/// The median of a non-empty sample window: the middle element of the
/// window in sorted order.
pub open spec fn spec_median(s: Seq<i64>) -> i64
    recommends
        s.len() > 0,
{
    s.sort_by(leq())[s.len() as int / 2]
}

/// The window's median is one of the window's samples.
pub proof fn lemma_median_in_window(s: Seq<i64>)
    requires
        s.len() > 0,
    ensures
        s.contains(spec_median(s)),
{
    broadcast use vstd::seq_lib::group_to_multiset_ensures;

    lemma_leq_total();
    s.lemma_sort_by_ensures(leq());
    let srt = s.sort_by(leq());
    let m = spec_median(s);
    assert(srt.to_multiset() =~= s.to_multiset());
    assert(srt.to_multiset().len() == s.to_multiset().len());
    assert(srt.len() == s.len());
    assert(0 <= s.len() as int / 2 < srt.len());
    assert(srt.contains(m)) by {
        assert(srt[s.len() as int / 2] == m);
    }
    assert(srt.to_multiset().count(m) > 0);
    assert(s.to_multiset().count(m) > 0);
}

proof fn lemma_insert_multiset(s: Seq<i64>, p: int, x: i64)
    requires
        0 <= p <= s.len(),
    ensures
        s.insert(p, x).to_multiset() == s.to_multiset().insert(x),
{
    broadcast use vstd::seq_lib::group_to_multiset_ensures;
    broadcast use vstd::multiset::group_multiset_axioms;

    let pre = s.subrange(0, p);
    let post = s.subrange(p, s.len() as int);
    assert(s.insert(p, x) =~= pre + (seq![x] + post));
    lemma_multiset_commutative(pre, seq![x] + post);
    lemma_multiset_commutative(seq![x], post);
    assert(s =~= pre + post);
    lemma_multiset_commutative(pre, post);
    assert(seq![x] =~= Seq::<i64>::empty().push(x));
    assert(seq![x].to_multiset() =~= Multiset::<i64>::empty().insert(x));
    assert(s.insert(p, x).to_multiset() =~= s.to_multiset().insert(x));
}

/// Insert `x` into an ascending vector, keeping it ascending.
fn sorted_insert(v: &mut Vec<i64>, x: i64)
    requires
        sorted_by(old(v)@, leq()),
        old(v)@.len() < usize::MAX,
    ensures
        sorted_by(final(v)@, leq()),
        final(v)@.to_multiset() == old(v)@.to_multiset().insert(x),
        final(v)@.len() == old(v)@.len() + 1,
{
    let n = v.len();
    let mut p: usize = 0;
    while p < n && v[p] <= x
        invariant
            p <= n,
            n == v@.len(),
            forall|j: int| 0 <= j < p ==> v@[j] <= x,
        decreases n - p,
    {
        p += 1;
    }
    assert(forall|j: int| p <= j < n ==> #[trigger] v@[j] > x) by {
        assert(forall|j: int|
            p < j < n ==> (leq()(v@[p as int], v@[j]) && v@[p as int] <= v@[j]));
    }
    let ghost before = v@;
    v.insert(p, x);
    proof {
        lemma_insert_multiset(before, p as int, x);
        assert forall|a: int, b: int| 0 <= a < b < v@.len() implies leq()(v@[a], v@[b]) by {
            assert(v@ == before.insert(p as int, x));
        }
    }
}

/// The elements of `input`, ascending.
fn sort_i64(input: &Vec<i64>) -> (out: Vec<i64>)
    requires
        input@.len() < usize::MAX,
    ensures
        sorted_by(out@, leq()),
        out@.to_multiset() == input@.to_multiset(),
        out@.len() == input@.len(),
{
    broadcast use vstd::seq_lib::group_to_multiset_ensures;

    let n = input.len();
    let mut out: Vec<i64> = Vec::new();
    let mut i: usize = 0;
    while i < n
        invariant
            i <= n,
            n == input@.len(),
            n < usize::MAX,
            sorted_by(out@, leq()),
            out@.len() == i,
            out@.to_multiset() == input@.subrange(0, i as int).to_multiset(),
        decreases n - i,
    {
        let ghost pre = input@.subrange(0, i as int);
        sorted_insert(&mut out, input[i]);
        proof {
            broadcast use vstd::seq_lib::group_to_multiset_ensures;

            assert(input@.subrange(0, i + 1) =~= pre.push(input@[i as int]));
            assert(pre.push(input@[i as int]).to_multiset() == pre.to_multiset().insert(
                input@[i as int],
            ));
        }
        i += 1;
    }
    assert(input@.subrange(0, n as int) =~= input@);
    out
}

// ---------------------------------------------------------------------------
// The offset filter
// ---------------------------------------------------------------------------

/// A sliding-window median over clock-offset samples.  The window holds the
/// last ten samples; its median rejects the asymmetric spikes that queueing
/// adds to round-trip halves.
pub struct LatencyFilter {
    ring: circular_buffer::FixedCircularBuffer<i64, 10>,
    current: i64,
}

impl View for LatencyFilter {
    type V = Seq<i64>;

    closed spec fn view(&self) -> Seq<i64> {
        ring_samples(self.ring)
    }
}

impl LatencyFilter {
    /// The window never outgrows its ten slots, and the held estimate is the
    /// window's median; before any sample it is a conservative millisecond.
    pub closed spec fn inv(&self) -> bool {
        &&& self@.len() <= 10
        &&& (self@.len() > 0 ==> self.current == spec_median(self@))
        &&& (self@.len() == 0 ==> self.current == 1000)
    }

    /// An empty filter holding the conservative initial estimate.
    pub fn new() -> (r: LatencyFilter)
        ensures
            r@ == Seq::<i64>::empty(),
            r.inv(),
    {
        LatencyFilter { ring: ring_new(), current: 1000 }
    }

    pub fn len(&self) -> (r: usize)
        ensures
            r == self@.len(),
    {
        ring_len(&self.ring)
    }

    /// True once the window is full: ten samples observed.
    pub fn synchronized(&self) -> (r: bool)
        ensures
            r == (self@.len() == 10),
    {
        ring_len(&self.ring) == 10
    }

    /// The current estimate in microseconds: the median of the window, or
    /// one millisecond before any sample arrived.
    pub fn current_usec(&self) -> (r: i64)
        requires
            self.inv(),
        ensures
            self@.len() > 0 ==> r == spec_median(self@),
            self@.len() == 0 ==> r == 1000,
    {
        self.current
    }

    /// Take one offset sample: the oldest sample leaves a full window, and
    /// the estimate becomes the median of the new window.
    pub fn push_sample(&mut self, sample: i64)
        requires
            old(self).inv(),
        ensures
            final(self).inv(),
            final(self)@ == (if old(self)@.len() < 10 {
                old(self)@.push(sample)
            } else {
                old(self)@.drop_first().push(sample)
            }),
            final(self)@.len() > 0,
            final(self).current_spec() == spec_median(final(self)@),
    {
        ring_push(&mut self.ring, sample);
        let v = ring_to_vec(&self.ring);
        let sorted = sort_i64(&v);
        let m = sorted[v.len() / 2];
        self.current = m;
        proof {
            lemma_leq_total();
            self@.lemma_sort_by_ensures(leq());
            lemma_sorted_unique(sorted@, self@.sort_by(leq()), leq());
        }
    }

    /// The estimate held, as a spec value.
    pub closed spec fn current_spec(&self) -> i64 {
        self.current
    }
}

} // verus!
