//! The shared data model: the records that the parsers produce and the
//! snapshot types the aggregators assemble, together with their views.

use vstd::prelude::*;
use crate::text::spec_trim;
use crate::network::{
    NetworkInterface, NetworkUsage, NetworkCollector, IfaceV, UsageV, unique_iface_names,
    ifaces_map, spec_interfaces, usage_views, spec_usage,
};

verus! {

/// Why a probe produced no text: its source was missing or erroring, or the
/// caller-imposed time bound ran out. The aggregators treat both the same
/// way, degrading the affected field to its default value.
#[derive(Clone, Copy, PartialEq, Eq, Debug)]
pub enum ProbeError {
    Unavailable,
    Timeout,
}

/// What one external probe handed back: captured output text, or a failure.
pub type ProbeResult = Result<String, ProbeError>;

/// The text a successful probe produced; a failed probe contributes nothing.
pub open spec fn probe_text(r: ProbeResult) -> Option<Seq<char>> {
    match r {
        Ok(s) => Some(s@),
        Err(_) => None,
    }
}

/// A probe whose output is published trimmed, or as the empty string when
/// the probe failed.
pub open spec fn trimmed_field(r: ProbeResult) -> Seq<char> {
    match probe_text(r) {
        Some(t) => spec_trim(t),
        None => Seq::<char>::empty(),
    }
}

pub struct HealthResponse {
    pub status: String,
}

/// An uptime split into calendar units. `total_seconds` is the single source
/// of truth; the other fields are always derived from it.
pub struct SystemUptime {
    pub days: u64,
    pub hours: u64,
    pub minutes: u64,
    pub seconds: u64,
    pub total_seconds: u64,
}

/// The invariant of every `SystemUptime` the library produces: each unit is
/// in its natural modulus and the units recompose to the total.
pub open spec fn uptime_wf(u: SystemUptime) -> bool {
    &&& u.hours < 24
    &&& u.minutes < 60
    &&& u.seconds < 60
    &&& u.days * 86400 + u.hours * 3600 + u.minutes * 60 + u.seconds == u.total_seconds
}

impl SystemUptime {
    /// Derives the calendar units from a seconds count.
    pub fn from_total_seconds(total: u64) -> (r: SystemUptime)
        ensures
            r.total_seconds == total,
            r.days == total as int / 86400,
            r.hours == (total as int % 86400) / 3600,
            r.minutes == (total as int % 3600) / 60,
            r.seconds == total as int % 60,
            uptime_wf(r),
    {
        let r = SystemUptime {
            days: total / 86400,
            hours: (total % 86400) / 3600,
            minutes: (total % 3600) / 60,
            seconds: total % 60,
            total_seconds: total,
        };
        proof {
            let t = total as int;
            vstd::arithmetic::div_mod::lemma_fundamental_div_mod(t, 86400);
            vstd::arithmetic::div_mod::lemma_fundamental_div_mod(t % 86400, 3600);
            vstd::arithmetic::div_mod::lemma_fundamental_div_mod(t % 3600, 60);
            vstd::arithmetic::div_mod::lemma_mod_mod(t, 3600, 24);
            vstd::arithmetic::div_mod::lemma_mod_mod(t, 60, 60);
            vstd::arithmetic::div_mod::lemma_mod_bound(t, 86400);
            vstd::arithmetic::div_mod::lemma_mod_bound(t, 3600);
            vstd::arithmetic::div_mod::lemma_mod_bound(t, 60);
            vstd::arithmetic::div_mod::lemma_mod_bound(t % 86400, 3600);
            vstd::arithmetic::div_mod::lemma_mod_bound(t % 3600, 60);
            assert(3600 * 24 == 86400);
            assert(60 * 60 == 3600);
        }
        r
    }
}

/// Law: for every well-formed uptime, the calendar units recompose exactly
/// to the total seconds count.
pub proof fn lemma_uptime_identity(u: SystemUptime)
    requires
        uptime_wf(u),
    ensures
        u.days * 86400 + u.hours * 3600 + u.minutes * 60 + u.seconds == u.total_seconds,
{
}

/// One loaded kernel module as the module enumerator reports it.
pub struct KernelModule {
    pub name: String,
    pub size: String,
    pub used_by: Vec<String>,
    pub state: String,
}

/// The mathematical shadow of a `KernelModule`.
pub ghost struct ModuleV {
    pub name: Seq<char>,
    pub size: Seq<char>,
    pub used_by: Seq<Seq<char>>,
    pub state: Seq<char>,
}

impl View for KernelModule {
    type V = ModuleV;

    open spec fn view(&self) -> ModuleV {
        ModuleV {
            name: self.name@,
            size: self.size@,
            used_by: self.used_by.deep_view(),
            state: self.state@,
        }
    }
}

/// One kernel log line: the source-native timestamp text, the tag before the
/// colon, and the free-text remainder.
pub struct KernelLog {
    pub timestamp: String,
    pub level: String,
    pub message: String,
}

/// The mathematical shadow of a `KernelLog`.
pub ghost struct LogV {
    pub timestamp: Seq<char>,
    pub level: Seq<char>,
    pub message: Seq<char>,
}

impl View for KernelLog {
    type V = LogV;

    open spec fn view(&self) -> LogV {
        LogV { timestamp: self.timestamp@, level: self.level@, message: self.message@ }
    }
}

/// One `name = value` kernel tunable.
pub struct KernelParam {
    pub name: String,
    pub value: String,
}

/// The kernel snapshot. Every field defaults to its zero value when its
/// probe fails, so the record is always fully constructible.
pub struct KernelInfo {
    pub version: String,
    pub release: String,
    pub architecture: String,
    pub os_name: String,
    pub hostname: String,
    pub uptime: SystemUptime,
    pub last_boot: String,
    pub kernel_parameters: Vec<KernelParam>,
    pub loaded_modules: Vec<KernelModule>,
    pub logs: Vec<KernelLog>,
}

/// The network snapshot: the interface listing keyed by name, and the
/// traffic counters. The two come from independent sources and are not
/// joined.
pub struct NetworkInfo {
    pub interfaces: Vec<NetworkInterface>,
    pub usage: Vec<NetworkUsage>,
}

/// What the snapshot's interface set holds for a probe outcome.
pub open spec fn interfaces_field(r: ProbeResult) -> Map<Seq<char>, IfaceV> {
    match probe_text(r) {
        Some(t) => spec_interfaces(t),
        None => Map::<Seq<char>, IfaceV>::empty(),
    }
}

/// What the snapshot's usage list holds for a probe outcome.
pub open spec fn usage_field(r: ProbeResult) -> Seq<UsageV> {
    match probe_text(r) {
        Some(t) => spec_usage(t),
        None => Seq::<UsageV>::empty(),
    }
}

/// Assembles the network snapshot from the two probe outcomes under the
/// partial-failure policy: a failed probe degrades its own side to an empty
/// collection; the snapshot itself is always built.
pub fn build_network_info(interfaces: ProbeResult, usage: ProbeResult) -> (r: NetworkInfo)
    ensures
        unique_iface_names(r.interfaces@),
        ifaces_map(r.interfaces@) == interfaces_field(interfaces),
        usage_views(r.usage@) == usage_field(usage),
{
    let c = NetworkCollector::new();
    let ifs = match &interfaces {
        Ok(t) => c.get_interfaces(t.as_str()),
        Err(_) => Vec::new(),
    };
    let us = match &usage {
        Ok(t) => c.get_network_usage(t.as_str()),
        Err(_) => Vec::new(),
    };
    proof {
        assert(usage_views(Seq::<NetworkUsage>::empty()) =~= Seq::<UsageV>::empty());
    }
    NetworkInfo { interfaces: ifs, usage: us }
}

} // verus!
