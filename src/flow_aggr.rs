//! Minute-window flow aggregator: merges updates per flow id within two
//! one-minute slots, emits closed flows at once and flushes stale slots.
use vstd::prelude::*;
use std::sync::Arc;
use std::sync::atomic::{AtomicBool, AtomicU64, Ordering};
use crate::flow::{
    flow_merged, flow_reversed, minute_floor, perf_reversed, round_to_minute, CloseType,
    TaggedFlow, SECONDS_IN_MINUTE,
};
use crate::throttle::{min_of, sent, ThrottleState, ThrottlingQueue};

verus! {

pub const MINUTE_SLOTS: usize = 2;
/// Seconds without input after which the oldest slot is flushed.
pub const FLUSH_TIMEOUT: u64 = 120;
/// Seconds the worker waits for input before it checks for an idle flush.
pub const QUEUE_READ_TIMEOUT: u64 = 2;
pub const TAPTYPE_MAX: usize = 256;
/// The tap type that, when allowed, lets every tap type through.
pub const TAP_TYPE_ANY: usize = 0;

/// Counters of the aggregator, reset when read.
#[derive(Debug, Clone, Copy, PartialEq, Eq, Structural)]
pub struct FlowAggrCounter {
    pub drop_before_window: u64,
    pub out: u64,
    pub drop_in_throttle: u64,
}

/// Whether a slot holds a record of flow `id`.
pub open spec fn has_id(s: Seq<TaggedFlow>, id: u64) -> bool {
    exists |i: int| 0 <= i < s.len() && (#[trigger] s[i]).flow_id == id
}

/// No two records of a slot share a flow id.
pub open spec fn unique_ids(s: Seq<TaggedFlow>) -> bool {
    forall |i: int, j: int| 0 <= i < s.len() && 0 <= j < s.len() && i != j
        ==> (#[trigger] s[i]).flow_id != (#[trigger] s[j]).flow_id
}

/// Position of the record of flow `id` in a slot that holds one.
pub open spec fn index_of(s: Seq<TaggedFlow>, id: u64) -> int {
    choose |i: int| 0 <= i < s.len() && (#[trigger] s[i]).flow_id == id
}

/// The resident record turned to the direction of the update `f`.
pub open spec fn realigned(r: TaggedFlow, f: TaggedFlow) -> TaggedFlow {
    if r.reversed != f.reversed {
        TaggedFlow {
            flow_perf_stats: match r.flow_perf_stats {
                Some(p) => Some(perf_reversed(p)),
                None => None,
            },
            ..flow_reversed(r)
        }
    } else {
        r
    }
}

/// The update `f` applied to one slot: the slot afterwards and the records
/// it lets out, in order.
pub open spec fn merge_slot(s: Seq<TaggedFlow>, f: TaggedFlow) -> (Seq<TaggedFlow>, Seq<TaggedFlow>) {
    if has_id(s, f.flow_id) {
        let i = index_of(s, f.flow_id);
        let m = flow_merged(realigned(s[i], f), f);
        if m.close_type != CloseType::ForcedReport {
            (s.remove(i), seq![m])
        } else {
            (s.update(i, m), Seq::empty())
        }
    } else if f.close_type != CloseType::ForcedReport {
        (s, seq![f])
    } else {
        (s.push(f), Seq::empty())
    }
}

/// The update `f` placed in slot `k`: the slots afterwards and the records
/// let out. A flow new to slot `k` also lets its record of slot `k - 1` out.
pub open spec fn place_update(slots: Seq<Seq<TaggedFlow>>, k: int, f: TaggedFlow) -> (Seq<Seq<TaggedFlow>>, Seq<TaggedFlow>) {
    let s = slots[k];
    let (s2, out) = merge_slot(s, f);
    if !has_id(s, f.flow_id) && k > 0 && has_id(slots[k - 1], f.flow_id) {
        let p = slots[k - 1];
        let j = index_of(p, f.flow_id);
        (slots.update(k, s2).update(k - 1, p.remove(j)), out.push(p[j]))
    } else {
        (slots.update(k, s2), out)
    }
}

/// A record as it leaves the aggregator: an old flow starts at the minute
/// of its statistics time, and a periodic report ends a minute later.
pub open spec fn finished(f: TaggedFlow) -> TaggedFlow {
    let g = if !f.is_new_flow { TaggedFlow { start_time: minute_floor(f.flow_stat_time), ..f } } else { f };
    if g.close_type == CloseType::ForcedReport {
        TaggedFlow { end_time: minute_floor(g.flow_stat_time.saturating_add(60)), ..g }
    } else {
        g
    }
}

pub open spec fn all_finished(s: Seq<TaggedFlow>) -> Seq<TaggedFlow> {
    s.map_values(|f: TaggedFlow| finished(f))
}

/// What a `FlowAggr` holds.
pub struct AggrState {
    pub slot_start_time: u64,
    pub last_flush_time: u64,
    /// Slot 0 covers the minute from `slot_start_time`, slot 1 the next.
    pub slots: Seq<Seq<TaggedFlow>>,
    /// Every record handed to the egress queue so far, in order.
    pub emitted: Seq<TaggedFlow>,
    pub counter: FlowAggrCounter,
    pub queue: ThrottleState,
    pub tap_types: Seq<bool>,
}

/// The state after one rotation: slot 0 is let
/// out and the window moves on by a minute.
pub open spec fn rotated(a: AggrState) -> (Seq<Seq<TaggedFlow>>, Seq<TaggedFlow>, u64) {
    (seq![a.slots[1], Seq::empty()], a.emitted + all_finished(a.slots[0]), a.slot_start_time.saturating_add(60))
}

/// Slots, emitted records and window start after `n` slots are flushed.
pub open spec fn flushed(a: AggrState, n: int) -> (Seq<Seq<TaggedFlow>>, Seq<TaggedFlow>, u64) {
    if n <= 0 {
        (a.slots, a.emitted, a.slot_start_time)
    } else if n == 1 {
        (seq![a.slots[1], Seq::empty()], a.emitted + all_finished(a.slots[0]), a.slot_start_time.saturating_add(60))
    } else {
        (seq![Seq::empty(), Seq::empty()],
            a.emitted + all_finished(a.slots[0]) + all_finished(a.slots[1]),
            a.slot_start_time.saturating_add(60).saturating_add(60).saturating_add(minutes(n - 2)))
    }
}

/// A counter after one more event; it wraps around as an atomic counter does.
pub open spec fn bump(x: u64) -> u64 {
    if x == u64::MAX { 0 } else { (x + 1) as u64 }
}

fn bumped(x: u64) -> (r: u64)
    ensures
        r == bump(x),
{
    if x == u64::MAX { 0 } else { x + 1 }
}

/// A counter after `k` more events, wrapping around.
pub open spec fn bump_by(x: u64, k: int) -> u64 {
    ((x as int + k) % 0x1_0000_0000_0000_0000) as u64
}

proof fn lemma_bump_by_zero(x: u64)
    ensures
        bump_by(x, 0) == x,
{
    vstd::arithmetic::div_mod::lemma_small_mod(x as nat, 0x1_0000_0000_0000_0000);
}

proof fn lemma_bump_by_next(x: u64, k: int)
    requires
        k >= 0,
    ensures
        bump(bump_by(x, k)) == bump_by(x, k + 1),
{
    let m: int = 0x1_0000_0000_0000_0000;
    let y = (x as int + k) % m;
    vstd::arithmetic::div_mod::lemma_add_mod_noop(x as int + k, 1, m);
    vstd::arithmetic::div_mod::lemma_small_mod(1, m as nat);
    vstd::arithmetic::div_mod::lemma_mod_bound(x as int + k, m);
    if y + 1 < m {
        vstd::arithmetic::div_mod::lemma_small_mod((y + 1) as nat, m as nat);
    } else {
        vstd::arithmetic::div_mod::lemma_mod_self_0(m);
    }
}

/// `b` counts in `out` every record emitted since `a`.
pub open spec fn counted(a: AggrState, b: AggrState) -> bool {
    &&& b.emitted.len() >= a.emitted.len()
    &&& b.counter.out == bump_by(a.counter.out, b.emitted.len() - a.emitted.len())
}

proof fn lemma_counted_refl(a: AggrState)
    ensures
        counted(a, a),
{
    lemma_bump_by_zero(a.counter.out);
}

proof fn lemma_counted_step(a: AggrState, b: AggrState, c: AggrState)
    requires
        counted(a, b),
        c.counter.out == bump(b.counter.out),
        c.emitted.len() == b.emitted.len() + 1,
    ensures
        counted(a, c),
{
    lemma_bump_by_next(a.counter.out, b.emitted.len() - a.emitted.len());
}

proof fn lemma_counted_trans(a: AggrState, b: AggrState, c: AggrState)
    requires
        counted(a, b),
        counted(b, c),
    ensures
        counted(a, c),
{
    let m: int = 0x1_0000_0000_0000_0000;
    let k1 = b.emitted.len() - a.emitted.len();
    let k2 = c.emitted.len() - b.emitted.len();
    vstd::arithmetic::div_mod::lemma_add_mod_noop_right(k2, a.counter.out as int + k1, m);
    assert(k2 + (a.counter.out as int + k1) == a.counter.out as int + (k1 + k2));
}

/// Offering the records `fs` in order at time `now` takes queue `q` to `q2`,
/// with `k` of them not growing the sample.
pub open spec fn sent_all(q: ThrottleState, fs: Seq<TaggedFlow>, now: u64, q2: ThrottleState, k: int) -> bool
    decreases fs.len(),
{
    if fs.len() == 0 {
        q2 == q && k == 0
    } else {
        exists |qm: ThrottleState, r: bool|
            #[trigger] sent(qm, fs.last(), now, q2, r)
                && sent_all(q, fs.drop_last(), now, qm, if r { k } else { k - 1 })
    }
}

/// Since state `a`, every record emitted was offered to the egress queue in
/// order at time `now`, and `drop_in_throttle` grew by those that did not
/// grow the sample.
pub open spec fn delivered(a: AggrState, b: AggrState, now: u64) -> bool {
    &&& b.emitted.len() >= a.emitted.len()
    &&& b.emitted.subrange(0, a.emitted.len() as int) == a.emitted
    &&& exists |k: int| sent_all(a.queue, b.emitted.subrange(a.emitted.len() as int, b.emitted.len() as int), now, b.queue, k)
        && #[trigger] bump_by(a.counter.drop_in_throttle, k) == b.counter.drop_in_throttle
        && k >= 0
}

proof fn lemma_delivered_refl(a: AggrState, now: u64)
    ensures
        delivered(a, a, now),
{
    lemma_bump_by_zero(a.counter.drop_in_throttle);
    assert(a.emitted.subrange(0, a.emitted.len() as int) =~= a.emitted);
    let e = a.emitted.subrange(a.emitted.len() as int, a.emitted.len() as int);
    assert(e.len() == 0);
    assert(sent_all(a.queue, e, now, a.queue, 0));
    assert(bump_by(a.counter.drop_in_throttle, 0) == a.counter.drop_in_throttle);
}

proof fn lemma_delivered_step(a: AggrState, b: AggrState, c: AggrState, f: TaggedFlow, now: u64, r: bool)
    requires
        delivered(a, b, now),
        c.emitted == b.emitted.push(f),
        sent(b.queue, f, now, c.queue, r),
        c.counter.drop_in_throttle == if r { b.counter.drop_in_throttle } else { bump(b.counter.drop_in_throttle) },
    ensures
        delivered(a, c, now),
{
    let k = choose |k: int| sent_all(a.queue, b.emitted.subrange(a.emitted.len() as int, b.emitted.len() as int), now, b.queue, k)
        && #[trigger] bump_by(a.counter.drop_in_throttle, k) == b.counter.drop_in_throttle
        && k >= 0;
    let k2 = if r { k } else { k + 1 };
    let eb = b.emitted.subrange(a.emitted.len() as int, b.emitted.len() as int);
    let ec = c.emitted.subrange(a.emitted.len() as int, c.emitted.len() as int);
    assert(ec.drop_last() =~= eb);
    assert(ec.last() == f);
    assert(sent(b.queue, ec.last(), now, c.queue, r));
    assert(sent_all(a.queue, ec, now, c.queue, k2));
    if !r {
        lemma_bump_by_next(a.counter.drop_in_throttle, k);
    }
    assert(bump_by(a.counter.drop_in_throttle, k2) == c.counter.drop_in_throttle);
    assert(c.emitted.subrange(0, a.emitted.len() as int) =~= b.emitted.subrange(0, a.emitted.len() as int));
}

/// `n` minutes in seconds, saturated.
pub open spec fn minutes(n: int) -> u64 {
    if n * 60 > u64::MAX { u64::MAX } else { (n * 60) as u64 }
}

proof fn lemma_unique_remove(s: Seq<TaggedFlow>, i: int)
    requires
        unique_ids(s),
        0 <= i < s.len(),
    ensures
        unique_ids(s.remove(i)),
        forall |id: u64| has_id(s.remove(i), id) ==> has_id(s, id),
        !has_id(s.remove(i), s[i].flow_id),
{
    let r = s.remove(i);
    assert forall |a: int, b: int| 0 <= a < r.len() && 0 <= b < r.len() && a != b
        implies (#[trigger] r[a]).flow_id != (#[trigger] r[b]).flow_id by {
        let a2 = if a < i { a } else { a + 1 };
        let b2 = if b < i { b } else { b + 1 };
        assert(r[a] == s[a2] && r[b] == s[b2]);
    }
    assert forall |id: u64| has_id(r, id) implies has_id(s, id) by {
        let a = choose |a: int| 0 <= a < r.len() && (#[trigger] r[a]).flow_id == id;
        let a2 = if a < i { a } else { a + 1 };
        assert(r[a] == s[a2]);
    }
    if has_id(r, s[i].flow_id) {
        let a = choose |a: int| 0 <= a < r.len() && (#[trigger] r[a]).flow_id == s[i].flow_id;
        let a2 = if a < i { a } else { a + 1 };
        assert(r[a] == s[a2]);
    }
}

proof fn lemma_unique_update(s: Seq<TaggedFlow>, i: int, m: TaggedFlow)
    requires
        unique_ids(s),
        0 <= i < s.len(),
        m.flow_id == s[i].flow_id,
    ensures
        unique_ids(s.update(i, m)),
        has_id(s.update(i, m), m.flow_id),
{
    let r = s.update(i, m);
    assert forall |a: int, b: int| 0 <= a < r.len() && 0 <= b < r.len() && a != b
        implies (#[trigger] r[a]).flow_id != (#[trigger] r[b]).flow_id by {
        assert(r[a].flow_id == s[a].flow_id && r[b].flow_id == s[b].flow_id);
    }
    assert(r[i].flow_id == m.flow_id);
}

proof fn lemma_unique_push(s: Seq<TaggedFlow>, f: TaggedFlow)
    requires
        unique_ids(s),
        !has_id(s, f.flow_id),
    ensures
        unique_ids(s.push(f)),
        has_id(s.push(f), f.flow_id),
{
    let r = s.push(f);
    assert forall |a: int, b: int| 0 <= a < r.len() && 0 <= b < r.len() && a != b
        implies (#[trigger] r[a]).flow_id != (#[trigger] r[b]).flow_id by {
        if a < s.len() && b < s.len() {
            assert(r[a] == s[a] && r[b] == s[b]);
        } else if a < s.len() {
            assert(r[a] == s[a]);
        } else {
            assert(r[b] == s[b]);
        }
    }
    assert(r[s.len() as int].flow_id == f.flow_id);
}

/// A slot keeps its flow ids unique through an update.
pub proof fn lemma_merge_slot_unique(s: Seq<TaggedFlow>, f: TaggedFlow)
    requires
        unique_ids(s),
    ensures
        unique_ids(merge_slot(s, f).0),
{
    if has_id(s, f.flow_id) {
        let i = index_of(s, f.flow_id);
        let m = flow_merged(realigned(s[i], f), f);
        lemma_unique_remove(s, i);
        lemma_unique_update(s, i, m);
    } else if f.close_type == CloseType::ForcedReport {
        lemma_unique_push(s, f);
    }
}

/// What merging the update `f` at wall-clock time `now` does to a state `a`
/// whose window it does not precede, with `b` the state afterwards: the
/// window first moves on until `f` falls in its last slot, then `f` is
/// applied to its slot.
pub open spec fn merge_outcome(a: AggrState, f: TaggedFlow, now: u64, b: AggrState) -> bool {
    let slot = (f.flow_stat_time - a.slot_start_time) / 60;
    let n = if slot >= 2 { slot - 1 } else { 0 };
    let (sl, em, st) = flushed(a, n);
    let k = if slot >= 2 { 1 } else { slot };
    let (sl2, out) = place_update(sl, k, f);
    &&& b.slots == sl2
    &&& b.emitted == em + all_finished(out)
    &&& b.slot_start_time == st
    &&& b.last_flush_time == if n > 0 { now } else { a.last_flush_time }
    &&& b.tap_types == a.tap_types
    &&& b.counter.drop_before_window == a.counter.drop_before_window
}

/// Whether the tap-type allow-list lets a flow of tap type `t` through.
pub open spec fn tap_allowed(tap: Seq<bool>, t: u16) -> bool {
    tap[TAP_TYPE_ANY as int] || (t < TAPTYPE_MAX && tap[t as int])
}

/// A slot after the updates `fs`, applied in order.
pub open spec fn merge_all(s: Seq<TaggedFlow>, fs: Seq<TaggedFlow>) -> Seq<TaggedFlow>
    decreases fs.len(),
{
    if fs.len() == 0 {
        s
    } else {
        merge_all(merge_slot(s, fs[0]).0, fs.drop_first())
    }
}

proof fn lemma_forced_keeps_entry(s: Seq<TaggedFlow>, f: TaggedFlow)
    requires
        unique_ids(s),
        f.close_type == CloseType::ForcedReport,
    ensures
        unique_ids(merge_slot(s, f).0),
        has_id(merge_slot(s, f).0, f.flow_id),
{
    lemma_merge_slot_unique(s, f);
    if has_id(s, f.flow_id) {
        let i = index_of(s, f.flow_id);
        lemma_unique_update(s, i, flow_merged(realigned(s[i], f), f));
    } else {
        lemma_unique_push(s, f);
    }
}

/// Merging any non-empty run of periodic reports of one flow into a slot
/// leaves exactly one record of that flow there: the slot holds one, and
/// no two of its records share an id.
pub proof fn lemma_one_per_slot(s: Seq<TaggedFlow>, fs: Seq<TaggedFlow>, id: u64)
    requires
        unique_ids(s),
        fs.len() > 0,
        forall |i: int| 0 <= i < fs.len() ==> (#[trigger] fs[i]).flow_id == id
            && fs[i].close_type == CloseType::ForcedReport,
    ensures
        unique_ids(merge_all(s, fs)),
        has_id(merge_all(s, fs), id),
    decreases fs.len(),
{
    assert(fs[0].flow_id == id && fs[0].close_type == CloseType::ForcedReport);
    lemma_forced_keeps_entry(s, fs[0]);
    if fs.len() > 1 {
        let rest = fs.drop_first();
        assert forall |i: int| 0 <= i < rest.len() implies (#[trigger] rest[i]).flow_id == id
            && rest[i].close_type == CloseType::ForcedReport by {
            assert(rest[i] == fs[i + 1]);
        }
        lemma_one_per_slot(merge_slot(s, fs[0]).0, rest, id);
    } else {
        assert(fs.drop_first().len() == 0);
        assert(merge_all(merge_slot(s, fs[0]).0, fs.drop_first()) == merge_slot(s, fs[0]).0);
    }
}

/// An update that closes its flow lets the flow's record out at once, and
/// no slot keeps a record of the flow. This holds where the flow was at
/// most in the update's slot and the slot before it; where it sat in both
/// with the update in the later one, the earlier record stays.
pub proof fn lemma_terminal_short_circuit(slots: Seq<Seq<TaggedFlow>>, k: int, f: TaggedFlow)
    requires
        slots.len() == MINUTE_SLOTS,
        unique_ids(slots[0]),
        unique_ids(slots[1]),
        0 <= k < MINUTE_SLOTS,
        f.close_type != CloseType::ForcedReport,
        k == 0 ==> !has_id(slots[1], f.flow_id),
        k == 1 && has_id(slots[1], f.flow_id) ==> !has_id(slots[0], f.flow_id),
    ensures
        place_update(slots, k, f).1.len() > 0,
        place_update(slots, k, f).1[0].flow_id == f.flow_id,
        place_update(slots, k, f).1[0].close_type == f.close_type,
        forall |j: int| 0 <= j < MINUTE_SLOTS ==> !has_id(#[trigger] place_update(slots, k, f).0[j], f.flow_id),
{
    let s = slots[k];
    let r = place_update(slots, k, f).0;
    if has_id(s, f.flow_id) {
        let i = index_of(s, f.flow_id);
        lemma_unique_remove(s, i);
        assert(s[i].flow_id == f.flow_id);
        assert(r[k] == s.remove(i));
    } else if k > 0 && has_id(slots[k - 1], f.flow_id) {
        let p = slots[k - 1];
        let j = index_of(p, f.flow_id);
        lemma_unique_remove(p, j);
        assert(p[j].flow_id == f.flow_id);
        assert(r[k - 1] == p.remove(j));
    }
    assert forall |j: int| 0 <= j < MINUTE_SLOTS implies !has_id(#[trigger] r[j], f.flow_id) by {
    }
}

/// An update new to slot `k > 0` for a flow that still sits in slot
/// `k - 1` lets that earlier record out, and slot `k - 1` keeps none of it.
pub proof fn lemma_late_completion(slots: Seq<Seq<TaggedFlow>>, k: int, f: TaggedFlow)
    requires
        slots.len() == MINUTE_SLOTS,
        0 < k < MINUTE_SLOTS,
        unique_ids(slots[k - 1]),
        !has_id(slots[k], f.flow_id),
        has_id(slots[k - 1], f.flow_id),
    ensures
        place_update(slots, k, f).1.last() == slots[k - 1][index_of(slots[k - 1], f.flow_id)],
        !has_id(place_update(slots, k, f).0[k - 1], f.flow_id),
{
    let p = slots[k - 1];
    let j = index_of(p, f.flow_id);
    lemma_unique_remove(p, j);
    assert(p[j].flow_id == f.flow_id);
    assert(place_update(slots, k, f).0[k - 1] == p.remove(j));
}

pub struct FlowAggr {
    output: ThrottlingQueue,
    slot_start_time: u64,
    stashs: Vec<Vec<TaggedFlow>>,
    last_flush_time: u64,
    l4_log_store_tap_types: Vec<bool>,
    running: Arc<AtomicBool>,
    counter: FlowAggrCounter,
    emitted: Ghost<Seq<TaggedFlow>>,
}

impl View for FlowAggr {
    type V = AggrState;

    closed spec fn view(&self) -> AggrState {
        AggrState {
            slot_start_time: self.slot_start_time,
            last_flush_time: self.last_flush_time,
            slots: self.stashs@.map_values(|s: Vec<TaggedFlow>| s@),
            emitted: self.emitted@,
            counter: self.counter,
            queue: self.output@,
            tap_types: self.l4_log_store_tap_types@,
        }
    }
}

/// Finds the record of flow `id` in a slot.
fn find_flow(s: &Vec<TaggedFlow>, id: u64) -> (r: Option<usize>)
    requires
        unique_ids(s@),
    ensures
        r is None <==> !has_id(s@, id),
        r matches Some(i) ==> i < s@.len() && i == index_of(s@, id),
{
    let mut i: usize = 0;
    while i < s.len()
        invariant
            i <= s@.len(),
            unique_ids(s@),
            forall |j: int| 0 <= j < i ==> (#[trigger] s@[j]).flow_id != id,
        decreases s@.len() - i,
    {
        if s[i].flow_id == id {
            proof {
                let k = index_of(s@, id);
                assert(s@[k].flow_id == id);
                if k != i as int {
                    assert(s@[k].flow_id != s@[i as int].flow_id);
                }
            }
            return Some(i);
        }
        i = i + 1;
    }
    None
}

impl FlowAggr {
    /// An aggregator whose window starts at the minute before `now`, keeping
    /// the listed tap types (values past the tap-type range are ignored);
    /// `seed` seeds the egress queue's sampling.
    pub fn new(l4_log_store_tap_types: &[u32], throttle: Arc<AtomicU64>, running: Arc<AtomicBool>, now: u64, seed: u64) -> (r: Self)
        ensures
            r.wf(),
            r@.slot_start_time == minute_floor(now.saturating_sub(60)),
            r@.last_flush_time == 0,
            r@.slots == seq![Seq::<TaggedFlow>::empty(), Seq::<TaggedFlow>::empty()],
            r@.emitted.len() == 0,
            r@.counter == (FlowAggrCounter { drop_before_window: 0, out: 0, drop_in_throttle: 0 }),
            forall |t: int| 0 <= t < TAPTYPE_MAX ==> #[trigger] r@.tap_types[t]
                == exists |i: int| 0 <= i < l4_log_store_tap_types@.len() && l4_log_store_tap_types@[i] == t,
    {
        let mut tap_types: Vec<bool> = Vec::new();
        let mut t: usize = 0;
        while t < TAPTYPE_MAX
            invariant
                t <= TAPTYPE_MAX,
                tap_types@.len() == t,
                forall |u: int| 0 <= u < t ==> !#[trigger] tap_types@[u],
            decreases TAPTYPE_MAX - t,
        {
            tap_types.push(false);
            t = t + 1;
        }
        let mut i: usize = 0;
        while i < l4_log_store_tap_types.len()
            invariant
                i <= l4_log_store_tap_types@.len(),
                tap_types@.len() == TAPTYPE_MAX,
                forall |u: int| 0 <= u < TAPTYPE_MAX ==> #[trigger] tap_types@[u]
                    == exists |j: int| 0 <= j < i && l4_log_store_tap_types@[j] == u,
            decreases l4_log_store_tap_types@.len() - i,
        {
            let v = l4_log_store_tap_types[i];
            if (v as usize) < TAPTYPE_MAX {
                tap_types.set(v as usize, true);
            }
            proof {
                assert forall |u: int| 0 <= u < TAPTYPE_MAX implies #[trigger] tap_types@[u]
                    == exists |j: int| 0 <= j < i + 1 && l4_log_store_tap_types@[j] == u by {
                    if l4_log_store_tap_types@[i as int] == u {
                        assert(0 <= i < i + 1 && l4_log_store_tap_types@[i as int] == u);
                    } else if exists |j: int| 0 <= j < i + 1 && l4_log_store_tap_types@[j] == u {
                        let j = choose |j: int| 0 <= j < i + 1 && l4_log_store_tap_types@[j] == u;
                        assert(0 <= j < i && l4_log_store_tap_types@[j] == u);
                    }
                }
            }
            i = i + 1;
        }
        let mut stashs: Vec<Vec<TaggedFlow>> = Vec::new();
        stashs.push(Vec::new());
        stashs.push(Vec::new());
        let r = FlowAggr {
            output: ThrottlingQueue::new(throttle, seed),
            slot_start_time: round_to_minute(now.saturating_sub(SECONDS_IN_MINUTE)),
            stashs,
            last_flush_time: 0,
            l4_log_store_tap_types: tap_types,
            running,
            counter: FlowAggrCounter { drop_before_window: 0, out: 0, drop_in_throttle: 0 },
            emitted: Ghost(Seq::empty()),
        };
        assert(r@.slots =~= seq![Seq::<TaggedFlow>::empty(), Seq::<TaggedFlow>::empty()]);
        r
    }

    /// Hands a record to the egress queue, with its reporting window set
    /// as it leaves the aggregator.
    fn send_flow(&mut self, f: TaggedFlow, now: u64) -> (accepted: bool)
        requires
            old(self).wf(),
        ensures
            final(self).wf(),
            final(self)@ == (AggrState {
                emitted: old(self)@.emitted.push(finished(f)),
                counter: FlowAggrCounter {
                    out: bump(old(self)@.counter.out),
                    drop_in_throttle: if accepted {
                        old(self)@.counter.drop_in_throttle
                    } else {
                        bump(old(self)@.counter.drop_in_throttle)
                    },
                    ..old(self)@.counter
                },
                queue: final(self)@.queue,
                ..old(self)@
            }),
            sent(old(self)@.queue, finished(f), now, final(self)@.queue, accepted),
    {
        let mut g = f;
        if !g.is_new_flow {
            g.start_time = round_to_minute(g.flow_stat_time);
        }
        if g.close_type == CloseType::ForcedReport {
            g.end_time = round_to_minute(g.flow_stat_time.saturating_add(SECONDS_IN_MINUTE));
        }
        self.counter.out = bumped(self.counter.out);
        let accepted = self.output.send(g, now);
        if !accepted {
            self.counter.drop_in_throttle = bumped(self.counter.drop_in_throttle);
        }
        self.emitted = Ghost(self.emitted@.push(g));
        accepted
    }

    /// Lets every record of the oldest slot out, empties it and makes it
    /// the newest; the window moves on by a minute.
    fn flush_front_slot_and_rotate(&mut self, now: u64, Ghost(origin): Ghost<AggrState>)
        requires
            old(self).wf(),
            delivered(origin, old(self)@, now),
        ensures
            final(self).wf(),
            (final(self)@.slots, final(self)@.emitted, final(self)@.slot_start_time) == rotated(old(self)@),
            final(self)@.last_flush_time == now,
            final(self)@.tap_types == old(self)@.tap_types,
            final(self)@.counter.drop_before_window == old(self)@.counter.drop_before_window,
            counted(old(self)@, final(self)@),
            delivered(origin, final(self)@, now),
    {
        let ghost a = self@;
        proof {
            lemma_counted_refl(a);
        }
        let mut slot_map: Vec<TaggedFlow> = Vec::new();
        self.stashs.set_and_swap(0, &mut slot_map);
        assert(slot_map@ == a.slots[0]);
        assert(unique_ids(self.stashs@[0]@));
        let mut i: usize = 0;
        while i < slot_map.len()
            invariant
                self.wf(),
                i <= slot_map@.len(),
                slot_map@ == a.slots[0],
                self@.slots.len() == 2,
                self@.slots[1] == a.slots[1],
                self@.emitted == a.emitted + all_finished(slot_map@.take(i as int)),
                self@.slot_start_time == a.slot_start_time,
                self@.tap_types == a.tap_types,
                self@.counter.drop_before_window == a.counter.drop_before_window,
                counted(a, self@),
                delivered(origin, self@, now),
            decreases slot_map@.len() - i,
        {
            let ghost b = self@;
            let x = slot_map[i];
            let acc = self.send_flow(x, now);
            proof {
                lemma_counted_step(a, b, self@);
                lemma_delivered_step(origin, b, self@, finished(x), now, acc);
            }
            assert(all_finished(slot_map@.take(i as int + 1)) =~= all_finished(slot_map@.take(i as int)).push(finished(slot_map@[i as int])));
            i = i + 1;
        }
        assert(slot_map@.take(slot_map@.len() as int) =~= slot_map@);
        assert(self.stashs@[1]@ == self@.slots[1]);
        self.stashs.remove(0);
        self.stashs.push(Vec::new());
        self.last_flush_time = now;
        self.slot_start_time = self.slot_start_time.saturating_add(SECONDS_IN_MINUTE);
        assert(self@.slots =~= seq![a.slots[1], Seq::<TaggedFlow>::empty()]);
    }

    /// Flushes `slot_count` slots: at most `MINUTE_SLOTS` rotations, and
    /// beyond those the window start simply moves on, as those slots are empty.
    fn flush_slots(&mut self, slot_count: u64, now: u64, Ghost(origin): Ghost<AggrState>)
        requires
            old(self).wf(),
            delivered(origin, old(self)@, now),
        ensures
            final(self).wf(),
            (final(self)@.slots, final(self)@.emitted, final(self)@.slot_start_time) == flushed(old(self)@, slot_count as int),
            final(self)@.last_flush_time == if slot_count > 0 { now } else { old(self)@.last_flush_time },
            final(self)@.tap_types == old(self)@.tap_types,
            final(self)@.counter.drop_before_window == old(self)@.counter.drop_before_window,
            counted(old(self)@, final(self)@),
            delivered(origin, final(self)@, now),
    {
        let ghost a = self@;
        proof {
            lemma_counted_refl(a);
        }
        if slot_count >= 1 {
            self.flush_front_slot_and_rotate(now, Ghost(origin));
        }
        if slot_count >= 2 {
            let ghost b = self@;
            self.flush_front_slot_and_rotate(now, Ghost(origin));
            proof {
                lemma_counted_trans(a, b, self@);
            }
            assert(self@.emitted =~= a.emitted + all_finished(a.slots[0]) + all_finished(a.slots[1]));
            assert(self@.slots =~= seq![Seq::<TaggedFlow>::empty(), Seq::<TaggedFlow>::empty()]);
        }
        if slot_count > 2 {
            let d = match SECONDS_IN_MINUTE.checked_mul(slot_count - 2) {
                Some(d) => d,
                None => u64::MAX,
            };
            self.slot_start_time = self.slot_start_time.saturating_add(d);
        }
    }

    /// Applies the update `f` to slot `k` and lets out what it closes.
    fn place(&mut self, k: usize, f: TaggedFlow, now: u64, Ghost(origin): Ghost<AggrState>)
        requires
            old(self).wf(),
            delivered(origin, old(self)@, now),
            k < MINUTE_SLOTS,
        ensures
            final(self).wf(),
            final(self)@.slots == place_update(old(self)@.slots, k as int, f).0,
            final(self)@.emitted == old(self)@.emitted + all_finished(place_update(old(self)@.slots, k as int, f).1),
            final(self)@.slot_start_time == old(self)@.slot_start_time,
            final(self)@.last_flush_time == old(self)@.last_flush_time,
            final(self)@.tap_types == old(self)@.tap_types,
            final(self)@.counter.drop_before_window == old(self)@.counter.drop_before_window,
            counted(old(self)@, final(self)@),
            delivered(origin, final(self)@, now),
    {
        let ghost a = self@;
        proof {
            lemma_counted_refl(a);
        }
        let mut slot: Vec<TaggedFlow> = Vec::new();
        self.stashs.set_and_swap(k, &mut slot);
        assert(slot@ == a.slots[k as int]);
        assert(unique_ids(self.stashs@[k as int]@));
        proof {
            lemma_merge_slot_unique(slot@, f);
        }
        let ghost res = merge_slot(slot@, f);
        match find_flow(&slot, f.flow_id) {
            Some(i) => {
                let mut r = slot[i];
                if r.reversed != f.reversed {
                    r.reverse();
                    match r.flow_perf_stats {
                        Some(p) => {
                            let mut q = p;
                            q.reverse();
                            r.flow_perf_stats = Some(q);
                        },
                        None => {},
                    }
                }
                assert(r == realigned(slot@[i as int], f));
                r.sequential_merge(&f);
                if r.close_type != CloseType::ForcedReport {
                    slot.remove(i);
                    self.stashs.set(k, slot);
                    assert(self@.slots =~= a.slots.update(k as int, res.0));
                    let ghost c = self@;
                    let acc = self.send_flow(r, now);
                    proof {
                        lemma_counted_step(a, c, self@);
                        lemma_delivered_step(origin, c, self@, finished(r), now, acc);
                    }
                    assert(all_finished(res.1) =~= seq![finished(r)]);
                } else {
                    slot.set(i, r);
                    self.stashs.set(k, slot);
                    assert(self@.slots =~= a.slots.update(k as int, res.0));
                    assert(all_finished(res.1) =~= Seq::<TaggedFlow>::empty());
                }
                assert(self@.emitted =~= a.emitted + all_finished(res.1));
            },
            None => {
                if f.close_type != CloseType::ForcedReport {
                    self.stashs.set(k, slot);
                    let ghost c = self@;
                    let acc = self.send_flow(f, now);
                    proof {
                        lemma_counted_step(a, c, self@);
                        lemma_delivered_step(origin, c, self@, finished(f), now, acc);
                    }
                    assert(all_finished(res.1) =~= seq![finished(f)]);
                } else {
                    slot.push(f);
                    self.stashs.set(k, slot);
                    assert(all_finished(res.1) =~= Seq::<TaggedFlow>::empty());
                }
                assert(self@.slots =~= a.slots.update(k as int, res.0));
                assert(self@.emitted =~= a.emitted + all_finished(res.1));
                if k > 0 {
                    let ghost b = self@;
                    assert(b.slots[k - 1] == a.slots[k - 1]);
                    assert(self.stashs@[k - 1]@ == b.slots[k - 1]);
                    let mut prev: Vec<TaggedFlow> = Vec::new();
                    self.stashs.set_and_swap(k - 1, &mut prev);
                    assert(prev@ == a.slots[k - 1]);
                    assert(unique_ids(self.stashs@[k - 1]@));
                    match find_flow(&prev, f.flow_id) {
                        Some(j) => {
                            proof {
                                lemma_unique_remove(prev@, j as int);
                            }
                            let pf = prev.remove(j);
                            self.stashs.set(k - 1, prev);
                            assert(self@.slots =~= b.slots.update(k - 1, a.slots[k - 1].remove(j as int)));
                            let ghost c = self@;
                            let acc = self.send_flow(pf, now);
                            proof {
                                lemma_counted_step(a, c, self@);
                                lemma_delivered_step(origin, c, self@, finished(pf), now, acc);
                            }
                            assert(all_finished(res.1.push(pf)) =~= all_finished(res.1).push(finished(pf)));
                            assert(self@.emitted =~= a.emitted + all_finished(res.1.push(pf)));
                        },
                        None => {
                            self.stashs.set(k - 1, prev);
                            assert(self@.slots =~= b.slots);
                        },
                    }
                }
            },
        }
    }

    /// Merges one flow update: an update before the window is counted and
    /// dropped; one past the window first moves the window on.
    pub fn merge(&mut self, f: TaggedFlow, now: u64)
        requires
            old(self).wf(),
        ensures
            final(self).wf(),
            f.flow_stat_time < old(self)@.slot_start_time ==> final(self)@ == (AggrState {
                counter: FlowAggrCounter {
                    drop_before_window: bump(old(self)@.counter.drop_before_window),
                    ..old(self)@.counter
                },
                ..old(self)@
            }),
            f.flow_stat_time >= old(self)@.slot_start_time ==> merge_outcome(old(self)@, f, now, final(self)@),
            f.flow_stat_time >= old(self)@.slot_start_time ==> counted(old(self)@, final(self)@),
            f.flow_stat_time >= old(self)@.slot_start_time ==> delivered(old(self)@, final(self)@, now),
    {
        let flow_time = f.flow_stat_time;
        if flow_time < self.slot_start_time {
            self.counter.drop_before_window = bumped(self.counter.drop_before_window);
            return;
        }
        let ghost a = self@;
        proof {
            lemma_delivered_refl(a, now);
        }
        let slot: u64 = (flow_time - self.slot_start_time) / SECONDS_IN_MINUTE;
        let k: usize;
        if slot >= 2 {
            self.flush_slots(slot - 1, now, Ghost(a));
            k = 1;
        } else {
            self.flush_slots(0, now, Ghost(a));
            k = slot as usize;
        }
        let ghost b = self@;
        self.place(k, f, now, Ghost(a));
        proof {
            lemma_counted_trans(a, b, self@);
        }
    }

    /// Merges an update whose tap type the allow-list lets through, and
    /// drops any other silently.
    pub fn on_update(&mut self, f: TaggedFlow, now: u64)
        requires
            old(self).wf(),
        ensures
            final(self).wf(),
            !tap_allowed(old(self)@.tap_types, f.tap_type) ==> final(self)@ == old(self)@,
            tap_allowed(old(self)@.tap_types, f.tap_type) && f.flow_stat_time < old(self)@.slot_start_time
                ==> final(self)@ == (AggrState {
                    counter: FlowAggrCounter {
                        drop_before_window: bump(old(self)@.counter.drop_before_window),
                        ..old(self)@.counter
                    },
                    ..old(self)@
                }),
            tap_allowed(old(self)@.tap_types, f.tap_type) && f.flow_stat_time >= old(self)@.slot_start_time
                ==> merge_outcome(old(self)@, f, now, final(self)@) && counted(old(self)@, final(self)@)
                    && delivered(old(self)@, final(self)@, now),
    {
        let t = f.tap_type as usize;
        if self.l4_log_store_tap_types[TAP_TYPE_ANY] || (t < TAPTYPE_MAX && self.l4_log_store_tap_types[t]) {
            self.merge(f, now);
        }
    }

    /// With no input for longer than `FLUSH_TIMEOUT` since the last flush,
    /// rotates exactly one slot out.
    pub fn on_idle(&mut self, now: u64)
        requires
            old(self).wf(),
        ensures
            final(self).wf(),
            now > old(self)@.last_flush_time && now - old(self)@.last_flush_time > FLUSH_TIMEOUT ==> {
                &&& (final(self)@.slots, final(self)@.emitted, final(self)@.slot_start_time) == rotated(old(self)@)
                &&& final(self)@.last_flush_time == now
                &&& final(self)@.tap_types == old(self)@.tap_types
                &&& final(self)@.counter.drop_before_window == old(self)@.counter.drop_before_window
                &&& counted(old(self)@, final(self)@)
                &&& delivered(old(self)@, final(self)@, now)
            },
            !(now > old(self)@.last_flush_time && now - old(self)@.last_flush_time > FLUSH_TIMEOUT)
                ==> final(self)@ == old(self)@,
    {
        if now > self.last_flush_time && now - self.last_flush_time > FLUSH_TIMEOUT {
            proof {
                lemma_delivered_refl(self@, now);
            }
            self.flush_front_slot_and_rotate(now, Ghost(self@));
        }
    }

    /// Reads the counters and resets them, so that each read gives what
    /// was counted since the one before.
    pub fn get_counters(&mut self) -> (r: FlowAggrCounter)
        ensures
            r == old(self)@.counter,
            final(self)@ == (AggrState {
                counter: FlowAggrCounter { drop_before_window: 0, out: 0, drop_in_throttle: 0 },
                ..old(self)@
            }),
            final(self).wf() == old(self).wf(),
    {
        let r = self.counter;
        self.counter = FlowAggrCounter { drop_before_window: 0, out: 0, drop_in_throttle: 0 };
        r
    }

    /// Whether the worker has been told to stop.
    pub fn closed(&self) -> bool {
        !self.running.load(Ordering::Relaxed)
    }

    /// Closes the egress queue's current sample as a batch.
    pub fn flush_output(&mut self)
        requires
            old(self).wf(),
        ensures
            final(self)@ == (AggrState {
                queue: ThrottleState {
                    stash: Seq::empty(),
                    batches: old(self)@.queue.batches.push(old(self)@.queue.stash),
                    ..old(self)@.queue
                },
                ..old(self)@
            }),
    {
        self.output.flush();
    }

    /// Takes the batches that the egress queue has closed, oldest first.
    pub fn take_batches(&mut self) -> (r: Vec<Vec<TaggedFlow>>)
        requires
            old(self).wf(),
        ensures
            final(self).wf(),
            r@.map_values(|b: Vec<TaggedFlow>| b@) == old(self)@.queue.batches,
            final(self)@ == (AggrState {
                queue: ThrottleState { batches: Seq::empty(), ..old(self)@.queue },
                ..old(self)@
            }),
    {
        self.output.take_batches()
    }

    pub fn slot_start_time(&self) -> (r: u64)
        ensures
            r == self@.slot_start_time,
    {
        self.slot_start_time
    }

    /// Number of records resident in slot `slot`.
    pub fn stash_len(&self, slot: usize) -> (r: usize)
        requires
            self.wf(),
            slot < MINUTE_SLOTS,
        ensures
            r == self@.slots[slot as int].len(),
    {
        self.stashs[slot].len()
    }

    /// The resident record of flow `id` in slot `slot`, if any.
    pub fn stashed(&self, slot: usize, id: u64) -> (r: Option<TaggedFlow>)
        requires
            self.wf(),
            slot < MINUTE_SLOTS,
        ensures
            r is None <==> !has_id(self@.slots[slot as int], id),
            r matches Some(g) ==> g == self@.slots[slot as int][index_of(self@.slots[slot as int], id)],
    {
        match find_flow(&self.stashs[slot], id) {
            Some(i) => Some(self.stashs[slot][i]),
            None => None,
        }
    }

    /// Two slots, each with unique flow ids, a full tap-type allow-list,
    /// and a well-formed egress queue.
    pub open spec fn wf(&self) -> bool {
        &&& self@.slots.len() == MINUTE_SLOTS
        &&& unique_ids(self@.slots[0])
        &&& unique_ids(self@.slots[1])
        &&& self@.tap_types.len() == TAPTYPE_MAX
        &&& self@.queue.stash.len() == min_of(self@.queue.period_count as int, self@.queue.throttle as int)
    }
}

} // verus!
