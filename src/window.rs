//! The sliding-window extremum tracker shared by `Maximum` and `Minimum`.
//!
//! The last `period` samples live in a circular buffer, together with the
//! position of the current extremum. A new sample replaces the oldest one;
//! the buffer is rescanned only when the sample that held the extremum is
//! the one replaced.
use vstd::prelude::*;
use crate::errors::TaError;
use crate::sample::{
    greater, is_greater, is_less, is_nan, lemma_infinities, lemma_key_bounds, less, order_key,
    INFINITY, NEG_INFINITY,
};

verus! {

/// Which end of the order a tracker seeks.
#[derive(Debug, PartialEq, Eq, Clone, Copy, Structural)]
pub enum Direction {
    Highest,
    Lowest,
}

/// `a` is strictly more extreme than `b` in direction `d`.
pub open spec fn beats(d: Direction, a: u64, b: u64) -> bool {
    match d {
        Direction::Highest => greater(a, b),
        Direction::Lowest => less(a, b),
    }
}

/// The value that pads the slots of a window that has not filled yet:
/// negative infinity when seeking the highest value, positive infinity
/// when seeking the lowest.
pub open spec fn sentinel(d: Direction) -> u64 {
    match d {
        Direction::Highest => NEG_INFINITY,
        Direction::Lowest => INFINITY,
    }
}

/// The window after `v` arrives: `v` is appended and, once the window
/// holds `p` samples, the oldest one leaves.
pub open spec fn slide(w: Seq<u64>, v: u64, p: nat) -> Seq<u64> {
    if w.len() < p {
        w.push(v)
    } else {
        w.push(v).subrange(1, w.len() as int + 1)
    }
}

/// `r` is one of the samples of `w`, and no sample of `w` is more extreme.
pub open spec fn is_extreme_of(d: Direction, w: Seq<u64>, r: u64) -> bool {
    &&& w.contains(r)
    &&& forall|i: int| 0 <= i < w.len() ==> !(#[trigger] beats(d, w[i], r))
}

/// Whatever does not beat `e` does not beat a value that beats `e`.
pub proof fn lemma_beats_transitive(d: Direction, x: u64, e: u64, v: u64)
    requires
        !beats(d, x, e),
        beats(d, v, e),
    ensures
        !beats(d, x, v),
{
}

/// The padding value beats nothing, and whatever beats a value that does
/// not beat the padding beats the padding too.
pub proof fn lemma_sentinel(d: Direction, x: u64, y: u64)
    ensures
        !beats(d, sentinel(d), x),
        !beats(d, x, sentinel(d)) && beats(d, y, x) ==> beats(d, y, sentinel(d)),
{
    lemma_infinities();
    if !is_nan(x) {
        lemma_key_bounds(x);
    }
    if !is_nan(y) {
        lemma_key_bounds(y);
    }
}

fn beats_exec(d: Direction, a: u64, b: u64) -> (r: bool)
    ensures
        r == beats(d, a, b),
{
    match d {
        Direction::Highest => is_greater(a, b),
        Direction::Lowest => is_less(a, b),
    }
}

fn sentinel_exec(d: Direction) -> (r: u64)
    ensures
        r == sentinel(d),
{
    match d {
        Direction::Highest => NEG_INFINITY,
        Direction::Lowest => INFINITY,
    }
}

/// `m` is the slot a forward scan picks in `b`: nothing beats it; it beats
/// the padding whenever any slot does (else it is 0); and it beats every
/// earlier slot that beats the padding, so the first of equals wins.
pub open spec fn is_scan_pick(d: Direction, b: Seq<u64>, m: int) -> bool {
    &&& 0 <= m < b.len()
    &&& forall|i: int| 0 <= i < b.len() ==> !(#[trigger] beats(d, b[i], b[m]))
    &&& m == 0 || beats(d, b[m], sentinel(d))
    &&& forall|i: int| 0 <= i < b.len() && #[trigger] beats(d, b[i], sentinel(d)) ==> beats(d, b[m], sentinel(d))
    &&& forall|i: int| 0 <= i < m && #[trigger] beats(d, b[i], sentinel(d)) ==> beats(d, b[m], b[i])
}

/// The slot a forward scan of `b` picks.
pub open spec fn scan_pick(d: Direction, b: Seq<u64>) -> int {
    choose|m: int| is_scan_pick(d, b, m)
}

/// A buffer has at most one slot that a forward scan may pick.
pub proof fn lemma_scan_pick_unique(d: Direction, b: Seq<u64>, m1: int, m2: int)
    requires
        is_scan_pick(d, b, m1),
        is_scan_pick(d, b, m2),
    ensures
        m1 == m2,
{
    if m1 < m2 {
        assert(beats(d, b[m1], sentinel(d)));
        assert(beats(d, b[m2], b[m1]));
    } else if m2 < m1 {
        assert(beats(d, b[m2], sentinel(d)));
        assert(beats(d, b[m1], b[m2]));
    }
}

/// A number that does not beat `e` is beaten by whatever beats `e`.
proof fn lemma_beats_chain(d: Direction, x: u64, e: u64, v: u64)
    requires
        !is_nan(x),
        !beats(d, x, e),
        beats(d, v, e),
    ensures
        beats(d, v, x),
{
}

/// A forward scan for the most extreme slot: the first of equals wins, and
/// a slot is taken only if it beats the padding, else the scan gives 0.
fn find_extreme_index(d: Direction, buffer: &Vec<u64>) -> (m: usize)
    requires
        buffer.len() >= 1,
    ensures
        is_scan_pick(d, buffer@, m as int),
        m as int == scan_pick(d, buffer@),
{
    let mut best = sentinel_exec(d);
    let mut index: usize = 0;
    let mut i: usize = 0;
    while i < buffer.len()
        invariant
            i <= buffer.len(),
            index < buffer.len(),
            index == 0 || index < i,
            (index == 0 && best == sentinel(d)) || (best == buffer@[index as int] && beats(d, best, sentinel(d))),
            forall|k: int| 0 <= k < i ==> !(#[trigger] beats(d, buffer@[k], best)),
            forall|k: int| 0 <= k < i && #[trigger] beats(d, buffer@[k], sentinel(d)) ==> beats(d, best, sentinel(d)),
            forall|k: int| 0 <= k < index && #[trigger] beats(d, buffer@[k], sentinel(d)) ==> beats(d, best, buffer@[k]),
        decreases buffer.len() - i,
    {
        let val = buffer[i];
        if beats_exec(d, val, best) {
            proof {
                assert forall|k: int| 0 <= k < i + 1 implies !(#[trigger] beats(d, buffer@[k], val)) by {
                    if k < i {
                        lemma_beats_transitive(d, buffer@[k], best, val);
                    }
                }
                lemma_sentinel(d, best, val);
                assert forall|k: int| 0 <= k < i && #[trigger] beats(d, buffer@[k], sentinel(d)) implies beats(d, val, buffer@[k]) by {
                    lemma_beats_chain(d, buffer@[k], best, val);
                }
            }
            best = val;
            index = i;
        } else {
            proof {
                if beats(d, val, sentinel(d)) {
                    lemma_sentinel(d, best, val);
                }
            }
        }
        i = i + 1;
    }
    proof {
        if index == 0 && best == sentinel(d) {
            assert forall|k: int| 0 <= k < buffer.len() implies !(#[trigger] beats(d, buffer@[k], buffer@[index as int])) by {
                assert(!beats(d, buffer@[0], best));
                lemma_sentinel(d, buffer@[0], buffer@[k]);
            }
            lemma_sentinel(d, best, best);
        }
        assert(is_scan_pick(d, buffer@, index as int));
        lemma_scan_pick_unique(d, buffer@, index as int, scan_pick(d, buffer@));
    }
    index
}

/// The window after the samples `s` arrive in order at a window `w` of
/// capacity `p`.
pub open spec fn feed(w: Seq<u64>, s: Seq<u64>, p: nat) -> Seq<u64>
    decreases s.len(),
{
    if s.len() == 0 {
        w
    } else {
        slide(feed(w, s.drop_last(), p), s.last(), p)
    }
}

/// Where the last `p` of `n` samples begin (0 while fewer than `p` came).
pub open spec fn latest_start(n: nat, p: nat) -> int {
    if n > p {
        n - p
    } else {
        0
    }
}

/// After the samples `s` arrive at an empty window of capacity `p`, the
/// window holds the last `min(|s|, p)` of them, oldest first. With the
/// contract of `next` this makes every result the extremum of those samples.
pub proof fn lemma_window_holds_latest(s: Seq<u64>, p: nat)
    requires
        p >= 1,
    ensures
        feed(Seq::empty(), s, p) == s.subrange(latest_start(s.len(), p), s.len() as int),
    decreases s.len(),
{
    if s.len() > 0 {
        let t = s.drop_last();
        lemma_window_holds_latest(t, p);
        assert(feed(Seq::empty(), s, p) =~= s.subrange(latest_start(s.len(), p), s.len() as int));
    }
}

/// Among samples without a NaN, two extrema of one window are the same
/// number (they differ at most in the sign of a zero): taking any of them
/// is as good as a full rescan.
pub proof fn lemma_extreme_is_determined(d: Direction, w: Seq<u64>, r1: u64, r2: u64)
    requires
        forall|i: int| 0 <= i < w.len() ==> !is_nan(#[trigger] w[i]),
        is_extreme_of(d, w, r1),
        is_extreme_of(d, w, r2),
    ensures
        order_key(r1) == order_key(r2),
{
    let i1 = choose|i: int| 0 <= i < w.len() && w[i] == r1;
    let i2 = choose|i: int| 0 <= i < w.len() && w[i] == r2;
    assert(!beats(d, w[i1], r2));
    assert(!beats(d, w[i2], r1));
}

/// When a full window drops its oldest sample, the extremum that comes
/// back is that of the samples that stay and the new one.
pub proof fn lemma_eviction(d: Direction, w: Seq<u64>, v: u64, p: nat, r: u64)
    requires
        p >= 1,
        w.len() == p,
        is_extreme_of(d, slide(w, v, p), r),
    ensures
        is_extreme_of(d, w.subrange(1, p as int).push(v), r),
{
    assert(slide(w, v, p) =~= w.subrange(1, p as int).push(v));
}

/// The first sample that reaches an empty window, as after construction
/// or a reset, comes back unchanged.
pub proof fn lemma_first_sample(d: Direction, v: u64, p: nat, r: u64)
    requires
        p >= 1,
        is_extreme_of(d, slide(Seq::empty(), v, p), r),
    ensures
        r == v,
{
    assert(slide(Seq::empty(), v, p) =~= seq![v]);
}

/// With a period of 1 every sample comes back unchanged.
pub proof fn lemma_unit_period(d: Direction, w: Seq<u64>, v: u64, r: u64)
    requires
        w.len() <= 1,
        is_extreme_of(d, slide(w, v, 1), r),
    ensures
        r == v,
{
    assert(slide(w, v, 1) =~= seq![v]);
}

/// The padded buffer of a window of capacity `p` that holds no sample.
pub open spec fn initial_slots(d: Direction, p: nat) -> Seq<u64> {
    Seq::new(p, |i: int| sentinel(d))
}

/// Buffer, cursor and extremum slot after `v` arrives at buffer `b` with
/// cursor `c` and extremum slot `e`: `v` overwrites the cursor's slot; it
/// takes the extremum if it beats it, the buffer is rescanned if the
/// extremum's own slot was overwritten, and otherwise the extremum stays;
/// the cursor moves on circularly.
pub open spec fn step(d: Direction, p: nat, b: Seq<u64>, c: int, e: int, v: u64) -> (Seq<u64>, int, int) {
    let b2 = b.update(c, v);
    let e2 = if beats(d, v, b2[e]) {
        c
    } else if e == c {
        scan_pick(d, b2)
    } else {
        e
    };
    (b2, if c + 1 < p { c + 1 } else { 0 }, e2)
}

/// The results that the samples `s` produce, one per sample, from buffer
/// `b`, cursor `c` and extremum slot `e`.
pub open spec fn run(d: Direction, p: nat, b: Seq<u64>, c: int, e: int, s: Seq<u64>) -> Seq<u64>
    decreases s.len(),
{
    if s.len() == 0 {
        Seq::empty()
    } else {
        let (b2, c2, e2) = step(d, p, b, c, e, s[0]);
        seq![b2[e2]].add(run(d, p, b2, c2, e2, s.drop_first()))
    }
}

/// The results of a tracker are those that `run` gives from its buffer
/// and positions: one step of `next` yields the first result of the run
/// and leaves the tracker where the rest of the run starts.
pub proof fn lemma_next_follows_run(t: WindowExtremum, after: WindowExtremum, v: u64, r: u64, s: Seq<u64>)
    requires
        t.steps_to(after, v, r),
    ensures
        run(t.direction(), t.capacity(), t.slots(), t.cursor_slot(), t.extreme_slot(), seq![v].add(s))
            == seq![r].add(run(after.direction(), after.capacity(), after.slots(), after.cursor_slot(), after.extreme_slot(), s)),
{
    let vs = seq![v].add(s);
    assert(vs[0] == v);
    assert(vs.drop_first() =~= s);
}

/// A tracker after a reset gives, on every sequence of samples, the
/// results that a newly built tracker of the same period and direction
/// gives.
pub proof fn lemma_reset_behaves_as_new(reset: WindowExtremum, fresh: WindowExtremum, s: Seq<u64>)
    requires
        reset.is_initial(),
        fresh.is_initial(),
        reset.capacity() == fresh.capacity(),
        reset.direction() == fresh.direction(),
    ensures
        run(reset.direction(), reset.capacity(), reset.slots(), reset.cursor_slot(), reset.extreme_slot(), s)
            == run(fresh.direction(), fresh.capacity(), fresh.slots(), fresh.cursor_slot(), fresh.extreme_slot(), s),
{
}

/// Two trackers in the initial state with one period and one direction
/// agree in every part of their state: a reset of a fresh tracker, or a
/// second reset, changes nothing.
pub proof fn lemma_initial_is_unique(a: WindowExtremum, b: WindowExtremum)
    requires
        a.is_initial(),
        b.is_initial(),
        a.capacity() == b.capacity(),
        a.direction() == b.direction(),
    ensures
        a.window() == b.window(),
        a.slots() == b.slots(),
        a.cursor_slot() == b.cursor_slot(),
        a.extreme_slot() == b.extreme_slot(),
{
    assert(a.window() =~= b.window());
}

/// The most extreme sample of `w` as a forward scan that recomputes it from
/// scratch finds it: the first sample, replaced by each later one that
/// beats the one held.
pub open spec fn rescan(d: Direction, w: Seq<u64>) -> u64
    decreases w.len(),
{
    if w.len() <= 1 {
        if w.len() == 0 { sentinel(d) } else { w[0] }
    } else {
        let held = rescan(d, w.drop_last());
        if beats(d, w.last(), held) {
            w.last()
        } else {
            held
        }
    }
}

proof fn lemma_rescan_is_extreme(d: Direction, w: Seq<u64>)
    requires
        w.len() >= 1,
    ensures
        is_extreme_of(d, w, rescan(d, w)),
    decreases w.len(),
{
    if w.len() == 1 {
        assert(w[0] == w[0]);
    } else {
        let pre = w.drop_last();
        lemma_rescan_is_extreme(d, pre);
        let held = rescan(d, pre);
        let k = choose|k: int| 0 <= k < pre.len() && pre[k] == held;
        assert(w[k] == held);
        if beats(d, w.last(), held) {
            assert forall|i: int| 0 <= i < w.len() implies !(#[trigger] beats(d, w[i], w.last())) by {
                if i < w.len() - 1 {
                    assert(w[i] == pre[i]);
                    lemma_beats_transitive(d, w[i], held, w.last());
                }
            }
            assert(w[w.len() - 1] == w.last());
        } else {
            assert forall|i: int| 0 <= i < w.len() implies !(#[trigger] beats(d, w[i], held)) by {
                if i < w.len() - 1 {
                    assert(w[i] == pre[i]);
                }
            }
        }
    }
}

/// On samples without a NaN, the extremum a tracker reports is the number
/// that a full rescan of its window finds (equal as a float: at most the
/// sign of a zero differs).
pub proof fn lemma_extreme_matches_rescan(d: Direction, w: Seq<u64>, r: u64)
    requires
        w.len() >= 1,
        forall|i: int| 0 <= i < w.len() ==> !is_nan(#[trigger] w[i]),
        is_extreme_of(d, w, r),
    ensures
        order_key(r) == order_key(rescan(d, w)),
{
    lemma_rescan_is_extreme(d, w);
    lemma_extreme_is_determined(d, w, r, rescan(d, w));
}

/// A tracker of the most extreme of the last `period` samples.
#[derive(Clone)]
pub struct WindowExtremum {
    direction: Direction,
    period: usize,
    extreme_index: usize,
    cursor: usize,
    buffer: Vec<u64>,
    /// The samples resident in the window, oldest first.
    resident: Ghost<Seq<u64>>,
}

impl WindowExtremum {
    pub closed spec fn direction(&self) -> Direction {
        self.direction
    }

    pub closed spec fn capacity(&self) -> nat {
        self.period as nat
    }

    /// The last `capacity()` samples fed since construction or the last
    /// reset (all of them while fewer have come), oldest first.
    pub closed spec fn window(&self) -> Seq<u64> {
        self.resident@
    }

    /// The buffer slot that holds the `j`-th oldest resident sample.
    spec fn slot(&self, j: int) -> int {
        let p = self.period as int;
        if self.resident@.len() < p {
            j
        } else if self.cursor + j < p {
            self.cursor + j
        } else {
            self.cursor + j - p
        }
    }

    /// Well-formed: a positive period, and the buffer laid out as the
    /// window and the extremum's slot say.
    pub open spec fn wf(&self) -> bool {
        self.capacity() >= 1 && self.laid_out()
    }

    pub closed spec fn laid_out(&self) -> bool {
        let p = self.period as int;
        let w = self.resident@;
        let b = self.buffer@;
        &&& p >= 1
        &&& b.len() == p
        &&& w.len() <= p
        &&& self.cursor < p
        &&& self.extreme_index < p
        &&& w.len() < p ==> self.cursor == w.len()
        &&& forall|j: int| 0 <= j < w.len() ==> b[#[trigger] self.slot(j)] == w[j]
        &&& forall|i: int| w.len() <= i < p ==> b[i] == sentinel(self.direction)
        &&& forall|i: int| 0 <= i < p ==> !(#[trigger] beats(self.direction, b[i], b[self.extreme_index as int]))
        &&& w.len() == 0 ==> self.extreme_index == 0
        &&& w.len() > 0 ==> exists|j: int| 0 <= j < w.len() && #[trigger] self.slot(j) == self.extreme_index
    }

    /// The buffer, slot by slot.
    pub closed spec fn slots(&self) -> Seq<u64> {
        self.buffer@
    }

    /// The slot the next sample goes to.
    pub closed spec fn cursor_slot(&self) -> int {
        self.cursor as int
    }

    /// The slot of the current extremum.
    pub closed spec fn extreme_slot(&self) -> int {
        self.extreme_index as int
    }

    /// The state right after construction or a reset: no sample resident,
    /// every slot padded, both positions at the first slot.
    pub open spec fn is_initial(&self) -> bool {
        &&& self.window().len() == 0
        &&& self.slots() == initial_slots(self.direction(), self.capacity())
        &&& self.cursor_slot() == 0
        &&& self.extreme_slot() == 0
    }

    /// `after` is this tracker once `v` arrived, and `r` what came back.
    pub open spec fn steps_to(&self, after: WindowExtremum, v: u64, r: u64) -> bool {
        &&& after.capacity() == self.capacity()
        &&& after.direction() == self.direction()
        &&& after.window() == slide(self.window(), v, self.capacity())
        &&& is_extreme_of(self.direction(), after.window(), r)
        &&& (after.slots(), after.cursor_slot(), after.extreme_slot()) == step(
            self.direction(),
            self.capacity(),
            self.slots(),
            self.cursor_slot(),
            self.extreme_slot(),
            v,
        )
        &&& r == after.slots()[after.extreme_slot()]
    }

    /// A tracker of the last `period` samples; fails when `period` is 0.
    pub fn new(direction: Direction, period: usize) -> (r: Result<WindowExtremum, TaError>)
        ensures
            period == 0 <==> r is Err,
            r is Err ==> r == Err::<WindowExtremum, _>(TaError::InvalidParameter),
            r matches Ok(t) ==> t.wf() && t.is_initial() && t.capacity() == period
                && t.direction() == direction && t.window() == Seq::<u64>::empty(),
    {
        if period == 0 {
            Err(TaError::InvalidParameter)
        } else {
            Ok(Self::with_period(direction, period))
        }
    }

    /// A tracker of the last `period` samples, for a period known to be
    /// positive.
    pub fn with_period(direction: Direction, period: usize) -> (t: WindowExtremum)
        requires
            period >= 1,
        ensures
            t.wf(),
            t.is_initial(),
            t.capacity() == period,
            t.direction() == direction,
            t.window() == Seq::<u64>::empty(),
    {
        let pad = sentinel_exec(direction);
        let mut buffer: Vec<u64> = Vec::new();
        let mut i: usize = 0;
        while i < period
            invariant
                i <= period,
                buffer@.len() == i,
                forall|k: int| 0 <= k < i ==> buffer@[k] == pad,
            decreases period - i,
        {
            buffer.push(pad);
            i = i + 1;
        }
        proof {
            lemma_sentinel(direction, pad, pad);
            assert(buffer@ =~= initial_slots(direction, period as nat));
        }
        WindowExtremum {
            direction,
            period,
            extreme_index: 0,
            cursor: 0,
            buffer,
            resident: Ghost(Seq::empty()),
        }
    }

    /// The number of samples the window holds once full.
    pub fn period(&self) -> (r: usize)
        requires
            self.wf(),
        ensures
            r == self.capacity(),
            r >= 1,
    {
        self.period
    }

    /// Takes in one sample and returns the most extreme sample of the
    /// window that now ends with it.
    pub fn next(&mut self, input: u64) -> (r: u64)
        requires
            old(self).wf(),
        ensures
            final(self).wf(),
            old(self).steps_to(*final(self), input, r),
    {
        let ghost old_self = *self;
        let ghost w = self.resident@;
        let ghost p = self.period as int;
        let d = self.direction;
        let cur = self.cursor;
        let old_extreme = self.extreme_index;
        self.buffer.set(cur, input);
        self.resident = Ghost(slide(w, input, self.period as nat));
        let ghost w2 = self.resident@;
        let ghost b2 = self.buffer@;
        let next_cursor: usize = if cur + 1 < self.period { cur + 1 } else { 0 };
        self.cursor = next_cursor;
        proof {
            // the resident samples sit where `slot` says
            assert forall|j: int| 0 <= j < w2.len() implies b2[#[trigger] self.slot(j)] == w2[j] by {
                if j == w2.len() - 1 {
                    assert(self.slot(j) == cur);
                } else if w.len() < p {
                    assert(old_self.slot(j) == j);
                } else {
                    assert(self.slot(j) == old_self.slot(j + 1));
                }
            }
        }
        let ei = if beats_exec(d, input, self.buffer[old_extreme]) {
            proof {
                assert forall|i: int| 0 <= i < p implies !(#[trigger] beats(d, b2[i], b2[cur as int])) by {
                    if i != cur {
                        lemma_beats_transitive(d, b2[i], old_self.buffer@[old_extreme as int], input);
                    }
                }
                assert(self.slot(w2.len() - 1) == cur);
            }
            cur
        } else if old_extreme == cur {
            let m = find_extreme_index(d, &self.buffer);
            proof {
                if w2.len() < p {
                    if m != 0 {
                        lemma_sentinel(d, b2[m as int], b2[m as int]);
                        assert(m < w2.len());
                        assert(self.slot(m as int) == m);
                    } else {
                        assert(self.slot(0) == 0);
                    }
                } else if m >= next_cursor {
                    assert(self.slot(m - next_cursor) == m);
                } else {
                    assert(self.slot(m + p - next_cursor) == m);
                }
            }
            m
        } else {
            proof {
                let j = choose|j: int| 0 <= j < w.len() && #[trigger] old_self.slot(j) == old_extreme;
                if w.len() < p {
                    assert(self.slot(j) == old_extreme);
                } else {
                    assert(j != 0);
                    assert(self.slot(j - 1) == old_extreme);
                }
            }
            old_extreme
        };
        let ghost j = choose|j: int| 0 <= j < w2.len() && #[trigger] self.slot(j) == ei;
        proof {
            assert(w2[j] == b2[ei as int]);
            assert forall|i: int| 0 <= i < w2.len() implies !(#[trigger] beats(d, w2[i], b2[ei as int])) by {
                assert(b2[self.slot(i)] == w2[i]);
            }
        }
        let ghost s2 = *self;
        self.extreme_index = ei;
        proof {
            assert(self.slot(j) == ei);
            assert forall|k: int| 0 <= k < w2.len() implies b2[#[trigger] self.slot(k)] == w2[k] by {
                assert(self.slot(k) == s2.slot(k));
            }
        }
        self.buffer[ei]
    }

    /// Discards every sample: the tracker is as `new` left it.
    pub fn reset(&mut self)
        requires
            old(self).wf(),
        ensures
            final(self).wf(),
            final(self).is_initial(),
            final(self).capacity() == old(self).capacity(),
            final(self).direction() == old(self).direction(),
            final(self).window() == Seq::<u64>::empty(),
    {
        let pad = sentinel_exec(self.direction);
        let mut i: usize = 0;
        while i < self.period
            invariant
                i <= self.period,
                self.buffer@.len() == self.period,
                self.period == old(self).period,
                self.direction == old(self).direction,
                pad == sentinel(self.direction),
                forall|k: int| 0 <= k < i ==> self.buffer@[k] == pad,
            decreases self.period - i,
        {
            self.buffer.set(i, pad);
            i = i + 1;
        }
        self.cursor = 0;
        self.extreme_index = 0;
        self.resident = Ghost(Seq::empty());
        proof {
            lemma_sentinel(self.direction, pad, pad);
            assert(self.buffer@ =~= initial_slots(self.direction, self.period as nat));
        }
    }
}

} // verus!
