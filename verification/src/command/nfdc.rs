//! The forwarder's status report, as the values the certification reads.

use vstd::prelude::*;
use vstd::string::StringExecFns;
use crate::double::Double;

verus! {

/// Commands of the forwarder's control tool.
#[derive(Debug, Clone, Copy, PartialEq, Eq)]
pub enum NfdcCommand {
    /// The full status report, as XML.
    Status,
}

impl NfdcCommand {
    /// The argument vector that the command is run with, program first.
    pub open spec fn command_line(self) -> Seq<Seq<char>> {
        seq!["/usr/bin/nfdc"@, "status"@, "report"@, "xml"@]
    }

    /// Builds the argument vector of the command.
    pub fn to_command(&self) -> (args: Vec<String>)
        ensures
            args.deep_view() == self.command_line(),
    {
        let mut args: Vec<String> = Vec::new();
        args.push(String::from_str("/usr/bin/nfdc"));
        args.push(String::from_str("status"));
        args.push(String::from_str("report"));
        args.push(String::from_str("xml"));
        assert(args.deep_view() =~= self.command_line());
        args
    }
}

/// The whole status report.
#[derive(Debug, Clone, PartialEq)]
pub struct NfdcStatus {
    pub general_status: GeneralStatus,
    pub channels: Channels,
    pub faces: Faces,
    pub fib: Fib,
    pub rib: Rib,
    pub cs: Cs,
    pub strategy_choices: StrategyChoices,
}

/// The forwarder at large: its version, its times, and the sizes of its
/// tables.
#[derive(Debug, Clone, PartialEq, Eq)]
pub struct GeneralStatus {
    pub version: String,
    pub start_time: String,
    pub current_time: String,
    pub uptime: String,
    pub n_name_tree_entries: u64,
    pub n_fib_entries: u64,
    pub n_pit_entries: u64,
    pub n_measurements_entries: u64,
    pub n_cs_entries: u64,
    pub packet_counters: PacketCounters,
    pub n_satisfied_interests: u64,
    pub n_unsatisfied_interests: u64,
}

/// Packets counted by direction.
#[derive(Debug, Clone, Copy, PartialEq, Eq)]
pub struct PacketCounters {
    pub incoming_packets: PacketCountersEntry,
    pub outgoing_packets: PacketCountersEntry,
}

/// Packets counted by kind: interests, data packets and negative
/// acknowledgements.
#[derive(Debug, Clone, Copy, PartialEq, Eq)]
pub struct PacketCountersEntry {
    pub n_interests: u64,
    pub n_data: u64,
    pub n_nacks: u64,
}

/// The channels the forwarder listens on.
#[derive(Debug, Clone, PartialEq, Eq)]
pub struct Channels {
    pub channel: Vec<Channel>,
}

/// A channel the forwarder listens on; the URI is kept as reported.
#[derive(Debug, Clone, PartialEq, Eq)]
pub struct Channel {
    pub local_uri: String,
}

/// The faces of the forwarder.
#[derive(Debug, Clone, PartialEq)]
pub struct Faces {
    pub face: Vec<Face>,
}

/// One face: where it leads, how it is set up, and what has passed
/// through it.
#[derive(Debug, Clone, PartialEq)]
pub struct Face {
    pub face_id: u64,
    pub remote_uri: String,
    pub local_uri: String,
    pub face_scope: String,
    pub face_persistency: String,
    pub link_type: String,
    pub congestion: Congestion,
    pub mtu: u64,
    pub flags: FaceFlags,
    pub packet_counters: PacketCounters,
    pub byte_counters: ByteCounters,
    pub interest_packet_size: PacketStatistics,
    pub data_packet_size: PacketStatistics,
    pub interest_packet_components: PacketStatistics,
    pub data_packet_components: PacketStatistics,
}

/// How a face marks congestion.
#[derive(Debug, Clone, PartialEq, Eq)]
pub struct Congestion {
    pub base_marking_interval: Option<String>,
    pub default_threshold: Option<u64>,
}

/// The flags of a face; a flag that is set is there.
#[derive(Debug, Clone, Copy, PartialEq, Eq)]
pub struct FaceFlags {
    pub local_fields_enabled: Option<LocalFieldsEnabled>,
    pub congestion_marking_enabled: Option<CongestionMarkingEnabled>,
}

/// The flag that local fields are enabled.
#[derive(Debug, Clone, Copy, PartialEq, Eq)]
pub struct LocalFieldsEnabled;

/// The flag that congestion marking is enabled.
#[derive(Debug, Clone, Copy, PartialEq, Eq)]
pub struct CongestionMarkingEnabled;

/// Bytes counted by direction.
#[derive(Debug, Clone, Copy, PartialEq, Eq)]
pub struct ByteCounters {
    pub incoming_bytes: u64,
    pub outgoing_bytes: u64,
}

/// Minimum, maximum, mean and standard deviation of a population of packets.
#[derive(Debug, Clone, Copy, PartialEq, Eq, Structural)]
pub struct PacketStatistics {
    pub min: u64,
    pub max: u64,
    pub avg: Double,
    pub std_dev: Double,
}

/// The forwarding table.
#[derive(Debug, Clone, PartialEq, Eq)]
pub struct Fib {
    pub fib_entry: Vec<FibEntry>,
}

/// The next hops of one prefix.
#[derive(Debug, Clone, PartialEq, Eq)]
pub struct FibEntry {
    pub prefix: String,
    pub next_hops: NextHops,
}

/// A list of next hops.
#[derive(Debug, Clone, PartialEq, Eq)]
pub struct NextHops {
    pub next_hop: Vec<NextHop>,
}

/// A face to forward to, and what it costs.
#[derive(Debug, Clone, Copy, PartialEq, Eq)]
pub struct NextHop {
    pub face_id: u64,
    pub cost: u64,
}

/// The routing table.
#[derive(Debug, Clone, PartialEq, Eq)]
pub struct Rib {
    pub rib_entry: Vec<RibEntry>,
}

/// The routes of one prefix.
#[derive(Debug, Clone, PartialEq, Eq)]
pub struct RibEntry {
    pub prefix: String,
    pub routes: Routes,
}

/// A list of routes.
#[derive(Debug, Clone, PartialEq, Eq)]
pub struct Routes {
    pub route: Vec<Route>,
}

/// A route: the face it leads to, where it comes from, and what it costs.
#[derive(Debug, Clone, PartialEq, Eq)]
pub struct Route {
    pub face_id: u64,
    pub origin: String,
    pub cost: u64,
    pub flags: RouteFlags,
}

/// The flags of a route; a flag that is set is there.
#[derive(Debug, Clone, Copy, PartialEq, Eq)]
pub struct RouteFlags {
    pub child_inherit: Option<ChildInherit>,
}

/// The flag that longer prefixes inherit the route.
#[derive(Debug, Clone, Copy, PartialEq, Eq)]
pub struct ChildInherit;

/// The content store: its configuration, its counters and the size
/// statistics of what it holds.
#[derive(Debug, Clone, PartialEq)]
pub struct Cs {
    pub capacity: u64,
    pub admit_enabled: Option<AdmitEnabled>,
    pub serve_enabled: Option<ServeEnabled>,
    pub n_entries: u64,
    pub n_hits: u64,
    pub n_misses: u64,
    pub policy_name: String,
    pub min_size: u64,
    pub max_size: u64,
    pub average_size: Double,
    pub std_dev_size: Double,
    pub valid_signature_packets: u64,
    pub invalid_signature_packets: u64,
}

/// The flag that the content store admits new entries.
#[derive(Debug, Clone, Copy, PartialEq)]
pub struct AdmitEnabled;

/// The flag that the content store serves what it holds.
#[derive(Debug, Clone, Copy, PartialEq)]
pub struct ServeEnabled;

/// The forwarding strategies chosen.
#[derive(Debug, Clone, PartialEq)]
pub struct StrategyChoices {
    pub strategy_choice: Vec<StrategyChoice>,
}

/// The strategy chosen for one namespace.
#[derive(Debug, Clone, PartialEq)]
pub struct StrategyChoice {
    pub namespace: String,
    pub strategy: Strategy,
}

/// A forwarding strategy, by its name.
#[derive(Debug, Clone, PartialEq)]
pub struct Strategy {
    pub name: String,
}

} // verus!
