//! Flow-log collector core: a DNS protocol log parser and a minute-window
//! flow aggregator with a rate-capping egress queue.

pub mod dns;
pub mod flow;
pub mod flow_aggr;
pub mod text;
pub mod throttle;
