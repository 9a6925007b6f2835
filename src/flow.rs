//! The flow record that the aggregator merges, with its merge rules.
use vstd::prelude::*;

verus! {

pub const SECONDS_IN_MINUTE: u64 = 60;

/// Why a flow record was produced: a periodic mid-flow summary or one of the
/// ways a flow ends.
#[derive(Debug, Clone, Copy, PartialEq, Eq, Structural)]
pub enum CloseType {
    Unknown,
    TcpFin,
    TcpServerRst,
    TcpClientRst,
    Timeout,
    ForcedReport,
}

/// Performance counters of a flow, per direction.
#[derive(Debug, Clone, Copy, PartialEq, Eq, Structural)]
pub struct FlowPerfStats {
    pub rtt_client: u32,
    pub rtt_server: u32,
    pub retrans_tx: u32,
    pub retrans_rx: u32,
}

/// One update of an L4 flow. Times are seconds since the epoch.
#[derive(Debug, Clone, Copy, PartialEq, Eq, Structural)]
pub struct TaggedFlow {
    pub flow_id: u64,
    pub flow_stat_time: u64,
    pub start_time: u64,
    pub end_time: u64,
    pub close_type: CloseType,
    pub is_new_flow: bool,
    pub reversed: bool,
    pub tap_type: u16,
    pub packet_tx: u64,
    pub packet_rx: u64,
    pub byte_tx: u64,
    pub byte_rx: u64,
    pub flow_perf_stats: Option<FlowPerfStats>,
}

/// `t` rounded down to a whole minute.
pub open spec fn minute_floor(t: u64) -> u64 {
    (t - t % 60) as u64
}

pub fn round_to_minute(t: u64) -> (r: u64)
    ensures
        r == minute_floor(t),
{
    t - t % SECONDS_IN_MINUTE
}

pub open spec fn perf_reversed(s: FlowPerfStats) -> FlowPerfStats {
    FlowPerfStats {
        rtt_client: s.rtt_server,
        rtt_server: s.rtt_client,
        retrans_tx: s.retrans_rx,
        retrans_rx: s.retrans_tx,
    }
}

/// Performance counters of both records added up, where both have them.
pub open spec fn perf_merged(a: Option<FlowPerfStats>, b: Option<FlowPerfStats>) -> Option<FlowPerfStats> {
    match (a, b) {
        (Some(x), Some(y)) => Some(FlowPerfStats {
            rtt_client: if y.rtt_client > 0 { y.rtt_client } else { x.rtt_client },
            rtt_server: if y.rtt_server > 0 { y.rtt_server } else { x.rtt_server },
            retrans_tx: x.retrans_tx.saturating_add(y.retrans_tx),
            retrans_rx: x.retrans_rx.saturating_add(y.retrans_rx),
        }),
        (None, y) => y,
        (x, None) => x,
    }
}

/// The record seen from the other direction.
pub open spec fn flow_reversed(f: TaggedFlow) -> TaggedFlow {
    TaggedFlow {
        reversed: !f.reversed,
        packet_tx: f.packet_rx,
        packet_rx: f.packet_tx,
        byte_tx: f.byte_rx,
        byte_rx: f.byte_tx,
        ..f
    }
}

/// `a` with the later update `b` folded in: counters add up, the time range
/// grows, and `b` decides the close type and the statistics time.
pub open spec fn flow_merged(a: TaggedFlow, b: TaggedFlow) -> TaggedFlow {
    TaggedFlow {
        flow_stat_time: b.flow_stat_time,
        end_time: if b.end_time > a.end_time { b.end_time } else { a.end_time },
        close_type: b.close_type,
        packet_tx: a.packet_tx.saturating_add(b.packet_tx),
        packet_rx: a.packet_rx.saturating_add(b.packet_rx),
        byte_tx: a.byte_tx.saturating_add(b.byte_tx),
        byte_rx: a.byte_rx.saturating_add(b.byte_rx),
        flow_perf_stats: perf_merged(a.flow_perf_stats, b.flow_perf_stats),
        ..a
    }
}

impl FlowPerfStats {
    pub fn reverse(&mut self)
        ensures
            *final(self) == perf_reversed(*old(self)),
    {
        let c = self.rtt_client;
        self.rtt_client = self.rtt_server;
        self.rtt_server = c;
        let t = self.retrans_tx;
        self.retrans_tx = self.retrans_rx;
        self.retrans_rx = t;
    }
}

impl TaggedFlow {
    pub fn reverse(&mut self)
        ensures
            *final(self) == flow_reversed(*old(self)),
    {
        self.reversed = !self.reversed;
        let p = self.packet_tx;
        self.packet_tx = self.packet_rx;
        self.packet_rx = p;
        let b = self.byte_tx;
        self.byte_tx = self.byte_rx;
        self.byte_rx = b;
    }

    pub fn sequential_merge(&mut self, other: &TaggedFlow)
        ensures
            *final(self) == flow_merged(*old(self), *other),
    {
        self.flow_stat_time = other.flow_stat_time;
        if other.end_time > self.end_time {
            self.end_time = other.end_time;
        }
        self.close_type = other.close_type;
        self.packet_tx = self.packet_tx.saturating_add(other.packet_tx);
        self.packet_rx = self.packet_rx.saturating_add(other.packet_rx);
        self.byte_tx = self.byte_tx.saturating_add(other.byte_tx);
        self.byte_rx = self.byte_rx.saturating_add(other.byte_rx);
        self.flow_perf_stats = match (self.flow_perf_stats, other.flow_perf_stats) {
            (Some(x), Some(y)) => Some(FlowPerfStats {
                rtt_client: if y.rtt_client > 0 { y.rtt_client } else { x.rtt_client },
                rtt_server: if y.rtt_server > 0 { y.rtt_server } else { x.rtt_server },
                retrans_tx: x.retrans_tx.saturating_add(y.retrans_tx),
                retrans_rx: x.retrans_rx.saturating_add(y.retrans_rx),
            }),
            (None, y) => y,
            (x, None) => x,
        };
    }
}

} // verus!
