use std::sync::atomic::{AtomicBool, AtomicU64};
use std::sync::Arc;

use flowlog::flow::{round_to_minute, CloseType, FlowPerfStats, TaggedFlow};
use flowlog::flow_aggr::{FlowAggr, FLUSH_TIMEOUT};
use flowlog::throttle::ThrottlingQueue;

const NOW: u64 = 1_000_020;
const T0: u64 = 999_960;

fn update(id: u64, t: u64, close_type: CloseType, reversed: bool) -> TaggedFlow {
    TaggedFlow {
        flow_id: id,
        flow_stat_time: t,
        start_time: t,
        end_time: t,
        close_type,
        is_new_flow: false,
        reversed,
        tap_type: 3,
        packet_tx: 2,
        packet_rx: 1,
        byte_tx: 200,
        byte_rx: 100,
        flow_perf_stats: None,
    }
}

fn aggr(throttle: u64) -> FlowAggr {
    FlowAggr::new(&[0], Arc::new(AtomicU64::new(throttle)), Arc::new(AtomicBool::new(true)), NOW, 7)
}

fn drain(a: &mut FlowAggr) -> Vec<TaggedFlow> {
    a.flush_output();
    a.take_batches().into_iter().flatten().collect()
}

#[test]
fn window_starts_a_minute_back() {
    let a = aggr(100);
    assert_eq!(a.slot_start_time(), T0);
    assert_eq!(round_to_minute(T0 + 59), T0);
    assert!(!a.closed());
}

#[test]
fn merge_then_close_emits_one() {
    let mut a = aggr(100);
    a.merge(update(1, T0 + 10, CloseType::ForcedReport, false), NOW);
    a.merge(update(1, T0 + 20, CloseType::ForcedReport, false), NOW);
    assert_eq!(a.stash_len(0), 1);
    assert!(drain(&mut a).is_empty());
    a.merge(update(1, T0 + 30, CloseType::TcpFin, false), NOW);
    let out = drain(&mut a);
    assert_eq!(out.len(), 1);
    assert_eq!(out[0].close_type, CloseType::TcpFin);
    assert_eq!(out[0].start_time, T0);
    assert_eq!(out[0].packet_tx, 6);
    assert_eq!(out[0].byte_rx, 300);
    assert_eq!(out[0].flow_stat_time, T0 + 30);
    assert_eq!(a.stash_len(0), 0);
    assert_eq!(a.stash_len(1), 0);
}

#[test]
fn next_minute_update_completes_previous() {
    let mut a = aggr(100);
    a.merge(update(1, T0 + 10, CloseType::ForcedReport, false), NOW);
    a.merge(update(1, T0 + 70, CloseType::ForcedReport, true), NOW);
    assert_eq!(a.stash_len(0), 0);
    assert_eq!(a.stash_len(1), 1);
    let out = drain(&mut a);
    assert_eq!(out.len(), 1);
    assert_eq!(out[0].start_time, T0);
    assert_eq!(out[0].end_time, T0 + 60);
    assert!(!out[0].reversed);
}

#[test]
fn idle_flush_rotates_once() {
    let mut a = aggr(100);
    a.merge(update(1, T0 + 10, CloseType::ForcedReport, false), NOW);
    a.on_idle(NOW);
    assert_eq!(a.slot_start_time(), T0 + 60);
    let out = drain(&mut a);
    assert_eq!(out.len(), 1);
    assert_eq!(out[0].start_time, T0);
    assert_eq!(out[0].end_time, T0 + 60);
    a.on_idle(NOW + FLUSH_TIMEOUT);
    assert_eq!(a.slot_start_time(), T0 + 60);
    a.on_idle(NOW + FLUSH_TIMEOUT + 1);
    assert_eq!(a.slot_start_time(), T0 + 120);
}

#[test]
fn far_update_rotates_twice() {
    let mut a = aggr(100);
    a.merge(update(1, T0 + 180, CloseType::ForcedReport, false), NOW);
    assert_eq!(a.slot_start_time(), T0 + 120);
    assert_eq!(a.stash_len(1), 1);
    assert_eq!(a.stash_len(0), 0);
    a.merge(update(2, T0 + 600, CloseType::ForcedReport, false), NOW);
    assert_eq!(a.slot_start_time(), T0 + 540);
    assert_eq!(drain(&mut a).len(), 1);
}

#[test]
fn late_update_dropped_and_counted() {
    let mut a = aggr(100);
    a.merge(update(1, T0 - 1, CloseType::TcpFin, false), NOW);
    assert!(drain(&mut a).is_empty());
    let c = a.get_counters();
    assert_eq!(c.drop_before_window, 1);
    assert_eq!(c.out, 0);
}

#[test]
fn counters_reset_on_read() {
    let mut a = aggr(100);
    a.merge(update(1, T0 + 5, CloseType::TcpFin, false), NOW);
    a.merge(update(2, T0 + 5, CloseType::Timeout, false), NOW);
    let c = a.get_counters();
    assert_eq!(c.out, 2);
    assert_eq!(c.drop_in_throttle, 0);
    let c = a.get_counters();
    assert_eq!((c.out, c.drop_before_window, c.drop_in_throttle), (0, 0, 0));
}

#[test]
fn throttle_caps_one_bucket() {
    let mut a = aggr(100);
    for id in 0..1000u64 {
        a.merge(update(id, T0 + 5, CloseType::TcpFin, false), NOW);
    }
    let c = a.get_counters();
    assert_eq!(c.out, 1000);
    assert_eq!(c.drop_in_throttle, 600);
    a.merge(update(5000, T0 + 5, CloseType::TcpFin, false), NOW + 4);
    let batches = a.take_batches();
    assert_eq!(batches.last().map(|b| b.len()), Some(400));
}

#[test]
fn throttle_queue_rollover_batches() {
    let mut q = ThrottlingQueue::new(Arc::new(AtomicU64::new(100)), 11);
    let mut accepted = 0;
    for id in 0..450u64 {
        if q.send(update(id, T0, CloseType::TcpFin, false), 8) {
            accepted += 1;
        }
    }
    assert_eq!(accepted, 400);
    assert!(q.send(update(9999, T0, CloseType::TcpFin, false), 12));
    let b = q.take_batches();
    assert_eq!(b.len(), 2);
    assert_eq!(b[1].len(), 400);
    q.flush();
    assert_eq!(q.take_batches()[0].len(), 1);
}

#[test]
fn throttle_setting_range() {
    let mut q = ThrottlingQueue::new(Arc::new(AtomicU64::new(100)), 11);
    q.set_throttle(99);
    q.set_throttle(1_000_001);
    for id in 0..401u64 {
        q.send(update(id, T0, CloseType::TcpFin, false), 8);
    }
    q.flush();
    assert_eq!(q.take_batches().last().unwrap().len(), 400);
    q.set_throttle(1000);
    for id in 0..500u64 {
        q.send(update(id, T0, CloseType::TcpFin, false), 8);
    }
    q.flush();
    assert_eq!(q.take_batches().last().unwrap().len(), 500);
}

#[test]
fn tap_filter_and_reverse_merge() {
    let mut a = FlowAggr::new(&[3, 999], Arc::new(AtomicU64::new(100)), Arc::new(AtomicBool::new(false)), NOW, 7);
    assert!(a.closed());
    let mut other = update(1, T0 + 10, CloseType::ForcedReport, false);
    other.tap_type = 4;
    a.on_update(other, NOW);
    assert_eq!(a.stash_len(0), 0);
    let mut first = update(1, T0 + 10, CloseType::ForcedReport, false);
    first.flow_perf_stats = Some(FlowPerfStats { rtt_client: 1, rtt_server: 2, retrans_tx: 3, retrans_rx: 4 });
    a.on_update(first, NOW);
    let mut second = update(1, T0 + 20, CloseType::ForcedReport, true);
    second.packet_tx = 10;
    a.on_update(second, NOW);
    let r = a.stashed(0, 1).unwrap();
    assert!(r.reversed);
    assert_eq!(r.packet_tx, 11);
    assert_eq!(r.packet_rx, 3);
    assert_eq!(r.flow_perf_stats.unwrap().retrans_tx, 4);
    assert_eq!(r.flow_perf_stats.unwrap().rtt_client, 2);
    assert!(a.stashed(1, 1).is_none());
}

#[test]
fn throttle_queue_with_rate() {
    let mut q = ThrottlingQueue::with_rate(Arc::new(AtomicU64::new(100)), 200, 13);
    let mut accepted = 0;
    for id in 0..900u64 {
        if q.send(update(id, T0, CloseType::TcpFin, false), 0) {
            accepted += 1;
        }
    }
    assert_eq!(accepted, 800);
}
