//! Network state parsing: the interface-listing state machine and the
//! per-interface traffic-counter parser.

use vstd::prelude::*;
use crate::text::{
    spec_tokens, spec_split, spec_parse_u64_or_zero, spec_parse_u32_or_zero, spec_trim,
    spec_contains, sub_at, run_end, CharClass, digit_char, tokens_of, split_on, parse_u64_or_zero,
    parse_u32_or_zero, trim_str, contains_sub, match_at, run_end_exec, char_in_class_exec,
};

verus! {

/// One network interface as reconstructed from the interface listing.
pub struct NetworkInterface {
    pub name: String,
    pub ip_addresses: Vec<String>,
    pub mac_address: String,
    pub is_up: bool,
    pub mtu: u32,
}

/// The mathematical shadow of a `NetworkInterface`.
pub ghost struct IfaceV {
    pub name: Seq<char>,
    pub ips: Seq<Seq<char>>,
    pub mac: Seq<char>,
    pub is_up: bool,
    pub mtu: u32,
}

impl View for NetworkInterface {
    type V = IfaceV;

    open spec fn view(&self) -> IfaceV {
        IfaceV {
            name: self.name@,
            ips: self.ip_addresses.deep_view(),
            mac: self.mac_address@,
            is_up: self.is_up,
            mtu: self.mtu,
        }
    }
}

/// Traffic counters of one interface, as the kernel reports them.
pub struct NetworkUsage {
    pub interface: String,
    pub rx_bytes: u64,
    pub tx_bytes: u64,
    pub rx_packets: u64,
    pub tx_packets: u64,
    pub rx_errors: u64,
    pub tx_errors: u64,
}

/// The mathematical shadow of a `NetworkUsage`.
pub ghost struct UsageV {
    pub interface: Seq<char>,
    pub rx_bytes: u64,
    pub tx_bytes: u64,
    pub rx_packets: u64,
    pub tx_packets: u64,
    pub rx_errors: u64,
    pub tx_errors: u64,
}

impl View for NetworkUsage {
    type V = UsageV;

    open spec fn view(&self) -> UsageV {
        UsageV {
            interface: self.interface@,
            rx_bytes: self.rx_bytes,
            tx_bytes: self.tx_bytes,
            rx_packets: self.rx_packets,
            tx_packets: self.tx_packets,
            rx_errors: self.rx_errors,
            tx_errors: self.tx_errors,
        }
    }
}

/// One interface joined with its counters, for callers that want both views
/// in a single record.
pub struct NetworkInfo {
    pub name: String,
    pub ip_addresses: Vec<String>,
    pub mac_address: String,
    pub usage: Option<NetworkUsage>,
}

pub open spec fn lo_name() -> Seq<char> {
    seq!['l', 'o']
}

/// `s` with every trailing colon removed.
pub open spec fn strip_colons(s: Seq<char>) -> Seq<char>
    decreases s.len(),
{
    if s.len() > 0 && s.last() == ':' {
        strip_colons(s.drop_last())
    } else {
        s
    }
}

fn strip_colons_exec(s: &str) -> (r: String)
    ensures
        r@ == strip_colons(s@),
    decreases s@.len(),
{
    let n = s.unicode_len();
    if n > 0 && s.get_char(n - 1) == ':' {
        let rest = s.substring_char(0, n - 1);
        proof {
            assert(rest@ =~= s@.drop_last());
        }
        strip_colons_exec(rest)
    } else {
        s.to_owned()
    }
}

/// The usage record one counter line contributes: the line must tokenize
/// into at least 17 columns, and the loopback interface is excluded.
pub open spec fn usage_of_line(l: Seq<char>) -> Option<UsageV> {
    let ts = spec_tokens(l);
    if ts.len() >= 17 {
        let name = strip_colons(ts[0]);
        if name == lo_name() {
            None
        } else {
            Some(UsageV {
                interface: name,
                rx_bytes: spec_parse_u64_or_zero(ts[1]),
                tx_bytes: spec_parse_u64_or_zero(ts[9]),
                rx_packets: spec_parse_u64_or_zero(ts[2]),
                tx_packets: spec_parse_u64_or_zero(ts[10]),
                rx_errors: spec_parse_u64_or_zero(ts[3]),
                tx_errors: spec_parse_u64_or_zero(ts[11]),
            })
        }
    } else {
        None
    }
}

pub open spec fn spec_usage_lines(lines: Seq<Seq<char>>) -> Seq<UsageV>
    decreases lines.len(),
{
    if lines.len() == 0 {
        Seq::<UsageV>::empty()
    } else {
        spec_usage_lines(lines.drop_last()) + match usage_of_line(lines.last()) {
            Some(u) => seq![u],
            None => Seq::<UsageV>::empty(),
        }
    }
}

/// The usage records of a whole counter listing: the first two lines are
/// headers and contribute nothing.
pub open spec fn spec_usage(s: Seq<char>) -> Seq<UsageV> {
    let lines = spec_split(s, '\n');
    if lines.len() >= 2 {
        spec_usage_lines(lines.skip(2))
    } else {
        Seq::<UsageV>::empty()
    }
}

pub open spec fn usage_views(v: Seq<NetworkUsage>) -> Seq<UsageV> {
    v.map_values(|u: NetworkUsage| u@)
}

/// Law: no usage record ever names the loopback interface, whatever the
/// input held.
pub proof fn lemma_usage_lines_no_loopback(lines: Seq<Seq<char>>)
    ensures
        forall|i: int|
            0 <= i < spec_usage_lines(lines).len() ==> (#[trigger] spec_usage_lines(
                lines,
            )[i]).interface != lo_name(),
    decreases lines.len(),
{
    if lines.len() > 0 {
        lemma_usage_lines_no_loopback(lines.drop_last());
        let pre = spec_usage_lines(lines.drop_last());
        let whole = spec_usage_lines(lines);
        assert forall|i: int| 0 <= i < whole.len() implies (#[trigger] whole[i]).interface
            != lo_name() by {
            if i < pre.len() {
                assert(whole[i] == pre[i]);
            } else {
                assert(usage_of_line(lines.last()) == Some(whole[i]));
            }
        }
    }
}

/// Law: the usage parser excludes loopback rows from its output even when
/// they are present in the input.
pub proof fn lemma_usage_no_loopback(s: Seq<char>)
    ensures
        forall|i: int|
            0 <= i < spec_usage(s).len() ==> (#[trigger] spec_usage(s)[i]).interface != lo_name(),
{
    let lines = spec_split(s, '\n');
    if lines.len() >= 2 {
        lemma_usage_lines_no_loopback(lines.skip(2));
    }
}

/// Checks a token for equality with the loopback name.
fn is_lo(s: &str) -> (b: bool)
    ensures
        b == (s@ == lo_name()),
{
    let n = s.unicode_len();
    if n == 2 && s.get_char(0) == 'l' && s.get_char(1) == 'o' {
        proof {
            assert(s@ =~= lo_name());
        }
        true
    } else {
        proof {
            if s@ == lo_name() {
                assert(s@.len() == 2);
            }
        }
        false
    }
}

/// Gathers per-interface traffic counters from pseudo-file text.
pub struct NetworkCollector;

impl NetworkCollector {
    pub fn new() -> Self {
        Self
    }

    /// Parses a counter listing: two header lines are skipped, every further
    /// line needs at least 17 whitespace-separated columns, the interface
    /// name loses its trailing colon, loopback rows are excluded, and each
    /// counter falls back to zero when its column is not a plain number.
    pub fn get_network_usage(&self, raw: &str) -> (r: Vec<NetworkUsage>)
        ensures
            usage_views(r@) == spec_usage(raw@),
    {
        let lines = split_on(raw, '\n');
        let mut out: Vec<NetworkUsage> = Vec::new();
        let n = lines.len();
        if n < 2 {
            proof {
                assert(usage_views(out@) =~= spec_usage(raw@));
            }
            return out;
        }
        let ghost ldv = lines.deep_view();
        for i in 2..n
            invariant
                n == lines@.len(),
                ldv == lines.deep_view(),
                ldv == spec_split(raw@, '\n'),
                ldv.len() == n,
                2 <= i <= n,
                usage_views(out@) == spec_usage_lines(ldv.skip(2).subrange(0, i - 2)),
        {
            proof {
                assert(ldv.skip(2).subrange(0, i - 2 + 1).drop_last() =~= ldv.skip(2).subrange(
                    0,
                    i - 2,
                ));
                assert(ldv.skip(2).subrange(0, i - 2 + 1).last() == ldv[i as int]);
                assert(lines@[i as int]@ == ldv[i as int]);
            }
            let line = &lines[i];
            let ts = tokens_of(line.as_str());
            proof {
                assert(ts.deep_view() == spec_tokens(ldv[i as int]));
            }
            if ts.len() >= 17 {
                let name = strip_colons_exec(ts[0].as_str());
                proof {
                    assert(ts@[0]@ == ts.deep_view()[0]);
                    assert(ts@[1]@ == ts.deep_view()[1]);
                    assert(ts@[2]@ == ts.deep_view()[2]);
                    assert(ts@[3]@ == ts.deep_view()[3]);
                    assert(ts@[9]@ == ts.deep_view()[9]);
                    assert(ts@[10]@ == ts.deep_view()[10]);
                    assert(ts@[11]@ == ts.deep_view()[11]);
                }
                if !is_lo(name.as_str()) {
                    let u = NetworkUsage {
                        interface: name,
                        rx_bytes: parse_u64_or_zero(ts[1].as_str()),
                        tx_bytes: parse_u64_or_zero(ts[9].as_str()),
                        rx_packets: parse_u64_or_zero(ts[2].as_str()),
                        tx_packets: parse_u64_or_zero(ts[10].as_str()),
                        rx_errors: parse_u64_or_zero(ts[3].as_str()),
                        tx_errors: parse_u64_or_zero(ts[11].as_str()),
                    };
                    out.push(u);
                    proof {
                        assert(usage_views(out@) =~= spec_usage_lines(
                            ldv.skip(2).subrange(0, i - 2 + 1),
                        ));
                    }
                } else {
                    proof {
                        assert(usage_views(out@) =~= spec_usage_lines(
                            ldv.skip(2).subrange(0, i - 2 + 1),
                        ));
                    }
                }
            } else {
                proof {
                    assert(usage_views(out@) =~= spec_usage_lines(
                        ldv.skip(2).subrange(0, i - 2 + 1),
                    ));
                }
            }
        }
        proof {
            assert(ldv.skip(2).subrange(0, n - 2) =~= ldv.skip(2));
        }
        out
    }
}

pub open spec fn up_flag() -> Seq<char> {
    seq!['U', 'P']
}

pub open spec fn inet_marker() -> Seq<char> {
    seq!['i', 'n', 'e', 't']
}

pub open spec fn inet_space() -> Seq<char> {
    seq!['i', 'n', 'e', 't', ' ']
}

pub open spec fn ether_marker() -> Seq<char> {
    seq!['l', 'i', 'n', 'k', '/', 'e', 't', 'h', 'e', 'r']
}

pub open spec fn mtu_marker() -> Seq<char> {
    seq!['m', 't', 'u']
}

/// What one recognized interface header line carries.
pub ghost struct HeaderV {
    pub name: Seq<char>,
    pub is_up: bool,
    pub mtu: u32,
}

/// The MTU value announced at position `j`: the marker `mtu`, whitespace,
/// then a digit run, read with fallback to zero.
pub open spec fn mtu_at(l: Seq<char>, j: int) -> Option<u32> {
    if sub_at(l, mtu_marker(), j) {
        let w = run_end(l, j + 3, CharClass::Ws);
        if w <= j + 3 {
            None
        } else {
            let e = run_end(l, w, CharClass::Digit);
            if e <= w {
                None
            } else {
                Some(spec_parse_u32_or_zero(l.subrange(w, e)))
            }
        }
    } else {
        None
    }
}

pub open spec fn find_mtu(l: Seq<char>, j: int) -> Option<u32>
    decreases l.len() - j,
{
    if j < 0 || j >= l.len() {
        None
    } else if mtu_at(l, j) is Some {
        mtu_at(l, j)
    } else {
        find_mtu(l, j + 1)
    }
}

/// A header line: an index of digits, a colon, whitespace, the interface
/// name up to the next colon (published trimmed), whitespace, a flag set in
/// angle brackets, and an MTU announcement somewhere after it. `is_up`
/// holds exactly when the comma-separated flag set holds the token `UP`
/// itself, so an adjacent flag such as `LOWER_UP` does not count.
pub open spec fn parse_header(l: Seq<char>) -> Option<HeaderV> {
    let i1 = run_end(l, 0, CharClass::Digit);
    if i1 <= 0 || i1 >= l.len() || l[i1] != ':' {
        None
    } else {
        let i2 = run_end(l, i1 + 1, CharClass::Ws);
        if i2 <= i1 + 1 {
            None
        } else {
            let i3 = run_end(l, i2, CharClass::NotChar(':'));
            if i3 <= i2 || i3 >= l.len() {
                None
            } else {
                let i4 = run_end(l, i3 + 1, CharClass::Ws);
                if i4 <= i3 + 1 || i4 >= l.len() || l[i4] != '<' {
                    None
                } else {
                    let i5 = run_end(l, i4 + 1, CharClass::NotChar('>'));
                    if i5 <= i4 + 1 || i5 >= l.len() {
                        None
                    } else {
                        match find_mtu(l, i5 + 1) {
                            None => None,
                            Some(m) => Some(
                                HeaderV {
                                    name: spec_trim(l.subrange(i2, i3)),
                                    is_up: spec_split(l.subrange(i4 + 1, i5), ',').contains(
                                        up_flag(),
                                    ),
                                    mtu: m,
                                },
                            ),
                        }
                    }
                }
            }
        }
    }
}

/// The address a detail line announces at position `j`: the marker `inet`,
/// whitespace, a run of digits and dots, then a slash and a digit.
pub open spec fn inet_at(l: Seq<char>, j: int) -> Option<Seq<char>> {
    if sub_at(l, inet_marker(), j) {
        let w = run_end(l, j + 4, CharClass::Ws);
        if w <= j + 4 {
            None
        } else {
            let e = run_end(l, w, CharClass::IpChar);
            if e <= w || e >= l.len() || l[e] != '/' || e + 1 >= l.len() || !digit_char(l[e + 1]) {
                None
            } else {
                Some(l.subrange(w, e))
            }
        }
    } else {
        None
    }
}

pub open spec fn find_inet(l: Seq<char>, j: int) -> Option<Seq<char>>
    decreases l.len() - j,
{
    if j < 0 || j >= l.len() {
        None
    } else if inet_at(l, j) is Some {
        inet_at(l, j)
    } else {
        find_inet(l, j + 1)
    }
}

/// The hardware address a detail line announces at position `j`: the marker
/// `link/ether`, whitespace, then a run of hex digits and colons.
pub open spec fn ether_at(l: Seq<char>, j: int) -> Option<Seq<char>> {
    if sub_at(l, ether_marker(), j) {
        let w = run_end(l, j + 10, CharClass::Ws);
        if w <= j + 10 {
            None
        } else {
            let e = run_end(l, w, CharClass::MacChar);
            if e <= w {
                None
            } else {
                Some(l.subrange(w, e))
            }
        }
    } else {
        None
    }
}

pub open spec fn find_ether(l: Seq<char>, j: int) -> Option<Seq<char>>
    decreases l.len() - j,
{
    if j < 0 || j >= l.len() {
        None
    } else if ether_at(l, j) is Some {
        ether_at(l, j)
    } else {
        find_ether(l, j + 1)
    }
}

/// The state carried across lines of the listing: the flushed interfaces so
/// far, and the accumulator of the interface whose header was seen last.
pub ghost struct NetSt {
    pub map: Map<Seq<char>, IfaceV>,
    pub cur: Option<IfaceV>,
}

/// Flushing moves the accumulator, if any, into the result set, keyed by
/// name and overwriting an earlier entry of the same name.
pub open spec fn flush(st: NetSt) -> Map<Seq<char>, IfaceV> {
    match st.cur {
        Some(c) => st.map.insert(c.name, c),
        None => st.map,
    }
}

pub open spec fn fresh_iface(h: HeaderV) -> IfaceV {
    IfaceV {
        name: h.name,
        ips: Seq::<Seq<char>>::empty(),
        mac: Seq::<char>::empty(),
        is_up: h.is_up,
        mtu: h.mtu,
    }
}

/// One transition of the interface state machine. A line with a leading
/// digit flushes the accumulator and, when it parses as a header, starts a
/// new one; an address or link-layer detail line extends the accumulator;
/// anything else, or a detail line with no accumulator, is ignored.
pub open spec fn step(st: NetSt, l: Seq<char>) -> NetSt {
    if l.len() > 0 && digit_char(l.first()) {
        match parse_header(l) {
            Some(h) => NetSt { map: flush(st), cur: Some(fresh_iface(h)) },
            None => NetSt { map: flush(st), cur: st.cur },
        }
    } else if spec_contains(l, inet_space()) {
        match st.cur {
            Some(c) => match find_inet(l, 0) {
                Some(ip) => NetSt {
                    map: st.map,
                    cur: Some(
                        IfaceV {
                            name: c.name,
                            ips: c.ips.push(ip),
                            mac: c.mac,
                            is_up: c.is_up,
                            mtu: c.mtu,
                        },
                    ),
                },
                None => st,
            },
            None => st,
        }
    } else if spec_contains(l, ether_marker()) {
        match st.cur {
            Some(c) => match find_ether(l, 0) {
                Some(mac) => NetSt {
                    map: st.map,
                    cur: Some(
                        IfaceV { name: c.name, ips: c.ips, mac, is_up: c.is_up, mtu: c.mtu },
                    ),
                },
                None => st,
            },
            None => st,
        }
    } else {
        st
    }
}

pub open spec fn run_lines(lines: Seq<Seq<char>>) -> NetSt
    decreases lines.len(),
{
    if lines.len() == 0 {
        NetSt { map: Map::<Seq<char>, IfaceV>::empty(), cur: None }
    } else {
        step(run_lines(lines.drop_last()), lines.last())
    }
}

/// The interfaces a whole listing describes: every line stepped through the
/// state machine, with the final accumulator flushed at end of input.
pub open spec fn spec_interfaces(s: Seq<char>) -> Map<Seq<char>, IfaceV> {
    flush(run_lines(spec_split(s, '\n')))
}

/// Law: the accumulator still open when input ends is flushed: the
/// interface whose header came last is in the result set even though no
/// further header line triggered a flush.
pub proof fn lemma_final_flush(lines: Seq<Seq<char>>)
    ensures
        match run_lines(lines).cur {
            Some(c) => flush(run_lines(lines)).contains_key(c.name) && flush(
                run_lines(lines),
            )[c.name] == c,
            None => true,
        },
{
}

/// The interface set a vector of records stands for, keyed by name.
pub open spec fn ifaces_map(v: Seq<NetworkInterface>) -> Map<Seq<char>, IfaceV>
    decreases v.len(),
{
    if v.len() == 0 {
        Map::<Seq<char>, IfaceV>::empty()
    } else {
        ifaces_map(v.drop_last()).insert(v.last().name@, v.last()@)
    }
}

pub open spec fn unique_iface_names(v: Seq<NetworkInterface>) -> bool {
    forall|i: int, j: int|
        0 <= i < j < v.len() ==> (#[trigger] v[i]).name@ != (#[trigger] v[j]).name@
}

proof fn lemma_ifaces_map_update(v: Seq<NetworkInterface>, i: int, x: NetworkInterface)
    requires
        unique_iface_names(v),
        0 <= i < v.len(),
        v[i].name@ == x.name@,
    ensures
        ifaces_map(v.update(i, x)) == ifaces_map(v).insert(x.name@, x@),
    decreases v.len(),
{
    if i == v.len() - 1 {
        assert(v.update(i, x).drop_last() =~= v.drop_last());
        assert(ifaces_map(v.drop_last()).insert(v.last().name@, v.last()@).insert(x.name@, x@)
            =~= ifaces_map(v.drop_last()).insert(x.name@, x@));
    } else {
        assert(v.update(i, x).drop_last() =~= v.drop_last().update(i, x));
        assert(v.update(i, x).last() == v.last());
        assert(unique_iface_names(v.drop_last())) by {
            assert(forall|a: int, b: int|
                0 <= a < b < v.drop_last().len() ==> v.drop_last()[a] == v[a] && v.drop_last()[b]
                    == v[b]);
        }
        assert(v.drop_last()[i] == v[i]);
        lemma_ifaces_map_update(v.drop_last(), i, x);
        assert(v.last().name@ != x.name@);
        assert(ifaces_map(v.drop_last()).insert(x.name@, x@).insert(v.last().name@, v.last()@)
            =~= ifaces_map(v.drop_last()).insert(v.last().name@, v.last()@).insert(x.name@, x@));
    }
}

/// Inserts an interface into the result set, overwriting the entry of the
/// same name if one exists.
fn upsert_iface(v: &mut Vec<NetworkInterface>, x: NetworkInterface)
    requires
        unique_iface_names(old(v)@),
    ensures
        unique_iface_names(final(v)@),
        ifaces_map(final(v)@) == ifaces_map(old(v)@).insert(x.name@, x@),
{
    let n = v.len();
    for i in 0..n
        invariant
            n == v@.len(),
            v@ == old(v)@,
            unique_iface_names(v@),
            forall|k: int| 0 <= k < i ==> (#[trigger] v@[k]).name@ != x.name@,
    {
        if v[i].name == x.name {
            let ghost oldv = v@;
            v.remove(i);
            v.insert(i, x);
            proof {
                assert(v@ =~= oldv.update(i as int, x));
                lemma_ifaces_map_update(oldv, i as int, x);
                assert(unique_iface_names(v@)) by {
                    assert(forall|k: int|
                        0 <= k < v@.len() && k != i ==> (#[trigger] v@[k]).name@ == oldv[k].name@);
                }
            }
            return;
        }
    }
    v.push(x);
    proof {
        assert(v@.drop_last() =~= old(v)@);
        assert(unique_iface_names(v@)) by {
            assert(forall|k: int| 0 <= k < v@.len() - 1 ==> v@[k] == old(v)@[k]);
        }
    }
}

pub open spec fn opt_iface_view(c: Option<NetworkInterface>) -> Option<IfaceV> {
    match c {
        Some(x) => Some(x@),
        None => None,
    }
}

fn clone_string_vec(v: &Vec<String>) -> (r: Vec<String>)
    ensures
        r.deep_view() == v.deep_view(),
{
    let mut r: Vec<String> = Vec::new();
    let n = v.len();
    for i in 0..n
        invariant
            n == v@.len(),
            r@.len() == i,
            forall|k: int| 0 <= k < i ==> #[trigger] r@[k]@ == v@[k]@,
    {
        r.push(v[i].clone());
    }
    proof {
        assert(r.deep_view() =~= v.deep_view());
    }
    r
}

fn clone_iface(c: &NetworkInterface) -> (r: NetworkInterface)
    ensures
        r@ == c@,
{
    let r = NetworkInterface {
        name: c.name.clone(),
        ip_addresses: clone_string_vec(&c.ip_addresses),
        mac_address: c.mac_address.clone(),
        is_up: c.is_up,
        mtu: c.mtu,
    };
    r
}

fn mtu_at_exec(l: &str, j: usize) -> (r: Option<u32>)
    requires
        j < l@.len(),
    ensures
        r == mtu_at(l@, j as int),
{
    proof {
        reveal_strlit("mtu");
        assert("mtu"@ =~= mtu_marker());
    }
    let n = l.unicode_len();
    if match_at(l, "mtu", j) {
        let w = run_end_exec(l, j + 3, CharClass::Ws);
        if w == j + 3 {
            return None;
        }
        let e = run_end_exec(l, w, CharClass::Digit);
        if e == w {
            return None;
        }
        Some(parse_u32_or_zero(l.substring_char(w, e)))
    } else {
        None
    }
}

fn find_mtu_exec(l: &str, j: usize) -> (r: Option<u32>)
    requires
        j <= l@.len(),
    ensures
        r == find_mtu(l@, j as int),
    decreases l@.len() - j,
{
    if j >= l.unicode_len() {
        None
    } else {
        let m = mtu_at_exec(l, j);
        if m.is_some() {
            m
        } else {
            find_mtu_exec(l, j + 1)
        }
    }
}

fn inet_at_exec(l: &str, j: usize) -> (r: Option<String>)
    requires
        j < l@.len(),
    ensures
        match r {
            Some(ip) => inet_at(l@, j as int) == Some(ip@),
            None => inet_at(l@, j as int) is None,
        },
{
    proof {
        reveal_strlit("inet");
        assert("inet"@ =~= inet_marker());
    }
    let n = l.unicode_len();
    if match_at(l, "inet", j) {
        let w = run_end_exec(l, j + 4, CharClass::Ws);
        if w == j + 4 {
            return None;
        }
        let e = run_end_exec(l, w, CharClass::IpChar);
        if e == w || e >= n {
            return None;
        }
        if l.get_char(e) != '/' {
            return None;
        }
        if e + 1 >= n || !char_in_class_exec(CharClass::Digit, l.get_char(e + 1)) {
            return None;
        }
        Some(l.substring_char(w, e).to_owned())
    } else {
        None
    }
}

fn find_inet_exec(l: &str, j: usize) -> (r: Option<String>)
    requires
        j <= l@.len(),
    ensures
        match r {
            Some(ip) => find_inet(l@, j as int) == Some(ip@),
            None => find_inet(l@, j as int) is None,
        },
    decreases l@.len() - j,
{
    if j >= l.unicode_len() {
        None
    } else {
        match inet_at_exec(l, j) {
            Some(ip) => Some(ip),
            None => find_inet_exec(l, j + 1),
        }
    }
}

fn ether_at_exec(l: &str, j: usize) -> (r: Option<String>)
    requires
        j < l@.len(),
    ensures
        match r {
            Some(mac) => ether_at(l@, j as int) == Some(mac@),
            None => ether_at(l@, j as int) is None,
        },
{
    proof {
        reveal_strlit("link/ether");
        assert("link/ether"@ =~= ether_marker());
    }
    let n = l.unicode_len();
    if match_at(l, "link/ether", j) {
        let w = run_end_exec(l, j + 10, CharClass::Ws);
        if w == j + 10 {
            return None;
        }
        let e = run_end_exec(l, w, CharClass::MacChar);
        if e == w {
            return None;
        }
        Some(l.substring_char(w, e).to_owned())
    } else {
        None
    }
}

fn find_ether_exec(l: &str, j: usize) -> (r: Option<String>)
    requires
        j <= l@.len(),
    ensures
        match r {
            Some(mac) => find_ether(l@, j as int) == Some(mac@),
            None => find_ether(l@, j as int) is None,
        },
    decreases l@.len() - j,
{
    if j >= l.unicode_len() {
        None
    } else {
        match ether_at_exec(l, j) {
            Some(mac) => Some(mac),
            None => find_ether_exec(l, j + 1),
        }
    }
}

/// Checks a flag token for equality with `UP`.
fn is_up_token(s: &str) -> (b: bool)
    ensures
        b == (s@ == up_flag()),
{
    let n = s.unicode_len();
    if n == 2 && s.get_char(0) == 'U' && s.get_char(1) == 'P' {
        proof {
            assert(s@ =~= up_flag());
        }
        true
    } else {
        proof {
            if s@ == up_flag() {
                assert(s@.len() == 2);
            }
        }
        false
    }
}

/// Tests whether the comma-separated flag set holds the token `UP` itself.
fn flag_set_has_up(flags: &str) -> (b: bool)
    ensures
        b == spec_split(flags@, ',').contains(up_flag()),
{
    let ps = split_on(flags, ',');
    let n = ps.len();
    for i in 0..n
        invariant
            n == ps@.len(),
            ps.deep_view() == spec_split(flags@, ','),
            forall|k: int| 0 <= k < i ==> ps.deep_view()[k] != up_flag(),
    {
        proof {
            assert(ps@[i as int]@ == ps.deep_view()[i as int]);
        }
        if is_up_token(ps[i].as_str()) {
            proof {
                assert(spec_split(flags@, ',')[i as int] == up_flag());
            }
            return true;
        }
    }
    proof {
        if spec_split(flags@, ',').contains(up_flag()) {
            let k = choose|k: int|
                0 <= k < spec_split(flags@, ',').len() && spec_split(flags@, ',')[k] == up_flag();
            assert(ps.deep_view()[k] == up_flag());
        }
    }
    false
}

fn parse_header_exec(l: &str) -> (r: Option<NetworkInterface>)
    ensures
        match r {
            Some(c) => parse_header(l@) == Some(
                HeaderV { name: c.name@, is_up: c.is_up, mtu: c.mtu },
            ) && c@ == fresh_iface(parse_header(l@).unwrap()),
            None => parse_header(l@) is None,
        },
{
    let n = l.unicode_len();
    let i1 = run_end_exec(l, 0, CharClass::Digit);
    if i1 == 0 || i1 >= n || l.get_char(i1) != ':' {
        return None;
    }
    let i2 = run_end_exec(l, i1 + 1, CharClass::Ws);
    if i2 == i1 + 1 {
        return None;
    }
    let i3 = run_end_exec(l, i2, CharClass::NotChar(':'));
    if i3 == i2 || i3 >= n {
        return None;
    }
    let name = trim_str(l.substring_char(i2, i3));
    let i4 = run_end_exec(l, i3 + 1, CharClass::Ws);
    if i4 == i3 + 1 || i4 >= n || l.get_char(i4) != '<' {
        return None;
    }
    let i5 = run_end_exec(l, i4 + 1, CharClass::NotChar('>'));
    if i5 == i4 + 1 || i5 >= n {
        return None;
    }
    let flags = l.substring_char(i4 + 1, i5);
    let is_up = flag_set_has_up(flags);
    match find_mtu_exec(l, i5 + 1) {
        None => None,
        Some(m) => {
            let c = NetworkInterface {
                name,
                ip_addresses: Vec::new(),
                mac_address: String::new(),
                is_up,
                mtu: m,
            };
            proof {
                assert(c.ip_addresses.deep_view() =~= Seq::<Seq<char>>::empty());
            }
            Some(c)
        },
    }
}

impl NetworkCollector {
    /// Reconstructs the interface set from a listing. Context is carried
    /// across lines: a header line flushes the previous interface and opens
    /// a new accumulator, detail lines extend it, and the last accumulator
    /// is flushed at end of input.
    pub fn get_interfaces(&self, raw: &str) -> (r: Vec<NetworkInterface>)
        ensures
            unique_iface_names(r@),
            ifaces_map(r@) == spec_interfaces(raw@),
    {
        let lines = split_on(raw, '\n');
        let ghost ldv = lines.deep_view();
        let mut out: Vec<NetworkInterface> = Vec::new();
        let mut cur: Option<NetworkInterface> = None;
        let n = lines.len();
        proof {
            assert(ldv.subrange(0, 0) =~= Seq::<Seq<char>>::empty());
        }
        for i in 0..n
            invariant
                n == lines@.len(),
                ldv == lines.deep_view(),
                ldv == spec_split(raw@, '\n'),
                ldv.len() == n,
                unique_iface_names(out@),
                ifaces_map(out@) == run_lines(ldv.subrange(0, i as int)).map,
                opt_iface_view(cur) == run_lines(ldv.subrange(0, i as int)).cur,
        {
            proof {
                assert(ldv.subrange(0, i + 1).drop_last() =~= ldv.subrange(0, i as int));
                assert(ldv.subrange(0, i + 1).last() == ldv[i as int]);
                assert(lines@[i as int]@ == ldv[i as int]);
            }
            let ghost st = run_lines(ldv.subrange(0, i as int));
            let ghost l = ldv[i as int];
            let ls = lines[i].as_str();
            let ln = ls.unicode_len();
            if ln > 0 && char_in_class_exec(CharClass::Digit, ls.get_char(0)) {
                match &cur {
                    Some(c) => {
                        let copy = clone_iface(c);
                        upsert_iface(&mut out, copy);
                    },
                    None => {},
                }
                proof {
                    assert(ifaces_map(out@) == flush(st));
                }
                match parse_header_exec(ls) {
                    Some(c) => {
                        cur = Some(c);
                    },
                    None => {},
                }
            } else {
                proof {
                    reveal_strlit("inet ");
                    assert("inet "@ =~= inet_space());
                    reveal_strlit("link/ether");
                    assert("link/ether"@ =~= ether_marker());
                }
                if contains_sub(ls, "inet ") {
                    cur = match cur {
                        Some(mut c) => {
                            match find_inet_exec(ls, 0) {
                                Some(ip) => {
                                    let ghost oldips = c.ip_addresses.deep_view();
                                    c.ip_addresses.push(ip);
                                    proof {
                                        assert(c.ip_addresses.deep_view() =~= oldips.push(ip@));
                                    }
                                    Some(c)
                                },
                                None => Some(c),
                            }
                        },
                        None => None,
                    };
                } else if contains_sub(ls, "link/ether") {
                    cur = match cur {
                        Some(mut c) => {
                            match find_ether_exec(ls, 0) {
                                Some(mac) => {
                                    c.mac_address = mac;
                                    Some(c)
                                },
                                None => Some(c),
                            }
                        },
                        None => None,
                    };
                }
            }
            proof {
                assert(ifaces_map(out@) == step(st, l).map);
                assert(opt_iface_view(cur) == step(st, l).cur);
            }
        }
        proof {
            assert(ldv.subrange(0, n as int) =~= ldv);
        }
        match cur {
            Some(c) => {
                upsert_iface(&mut out, c);
            },
            None => {},
        }
        out
    }
}

} // verus!
