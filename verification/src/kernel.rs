//! Kernel state parsing: tunables, loaded modules, log lines, uptime and
//! boot time, and the kernel snapshot aggregator with its partial-failure
//! policy.

use vstd::prelude::*;
use crate::text::{
    spec_tokens, spec_split, spec_trim, spec_remove_all, all_digits, digits_val, find_sub,
    run_end, CharClass, word_char, ws_char, tokens_of, split_on, trim_str, remove_all, parse_u64,
    run_end_exec, char_in_class_exec, lemma_run_end, find_sub_exec, lemma_split_len,
    lemma_split_no_sep, lemma_split_prefix,
};
use crate::models::{
    ProbeResult, probe_text, trimmed_field, SystemUptime, uptime_wf, KernelParam, KernelModule,
    ModuleV, KernelLog, LogV, KernelInfo,
};

verus! {

// ------------------------------------------------------------------
// kernel parameters: `key = value` lines, split on the first `=`,
// both sides trimmed, later duplicate keys overwriting earlier ones
// ------------------------------------------------------------------

pub open spec fn eq_marker() -> Seq<char> {
    seq!['=']
}

/// The pair a tunable line defines: the text before the first `=` and the
/// text after it, both trimmed. A line without `=` defines nothing.
pub open spec fn param_of_line(l: Seq<char>) -> Option<(Seq<char>, Seq<char>)> {
    match find_sub(l, eq_marker(), 0) {
        None => None,
        Some(k) => Some(
            (spec_trim(l.subrange(0, k)), spec_trim(l.subrange(k + 1, l.len() as int))),
        ),
    }
}

pub open spec fn spec_params_lines(lines: Seq<Seq<char>>) -> Map<Seq<char>, Seq<char>>
    decreases lines.len(),
{
    if lines.len() == 0 {
        Map::<Seq<char>, Seq<char>>::empty()
    } else {
        let m = spec_params_lines(lines.drop_last());
        match param_of_line(lines.last()) {
            None => m,
            Some(kv) => m.insert(kv.0, kv.1),
        }
    }
}

/// The key-value mapping a whole tunables listing defines.
pub open spec fn spec_params(s: Seq<char>) -> Map<Seq<char>, Seq<char>> {
    spec_params_lines(spec_split(s, '\n'))
}

/// The mapping a vector of parameter records stands for, keyed by name.
pub open spec fn params_map(v: Seq<KernelParam>) -> Map<Seq<char>, Seq<char>>
    decreases v.len(),
{
    if v.len() == 0 {
        Map::<Seq<char>, Seq<char>>::empty()
    } else {
        params_map(v.drop_last()).insert(v.last().name@, v.last().value@)
    }
}

pub open spec fn unique_param_names(v: Seq<KernelParam>) -> bool {
    forall|i: int, j: int|
        0 <= i < j < v.len() ==> (#[trigger] v[i]).name@ != (#[trigger] v[j]).name@
}

proof fn lemma_params_map_update(v: Seq<KernelParam>, i: int, x: KernelParam)
    requires
        unique_param_names(v),
        0 <= i < v.len(),
        v[i].name@ == x.name@,
    ensures
        params_map(v.update(i, x)) == params_map(v).insert(x.name@, x.value@),
    decreases v.len(),
{
    if i == v.len() - 1 {
        assert(v.update(i, x).drop_last() =~= v.drop_last());
        assert(params_map(v.drop_last()).insert(v.last().name@, v.last().value@).insert(
            x.name@,
            x.value@,
        ) =~= params_map(v.drop_last()).insert(x.name@, x.value@));
    } else {
        assert(v.update(i, x).drop_last() =~= v.drop_last().update(i, x));
        assert(v.update(i, x).last() == v.last());
        assert(unique_param_names(v.drop_last())) by {
            assert(forall|a: int, b: int|
                0 <= a < b < v.drop_last().len() ==> v.drop_last()[a] == v[a] && v.drop_last()[b]
                    == v[b]);
        }
        assert(v.drop_last()[i] == v[i]);
        lemma_params_map_update(v.drop_last(), i, x);
        assert(v.last().name@ != x.name@);
        assert(params_map(v.drop_last()).insert(x.name@, x.value@).insert(
            v.last().name@,
            v.last().value@,
        ) =~= params_map(v.drop_last()).insert(v.last().name@, v.last().value@).insert(
            x.name@,
            x.value@,
        ));
    }
}

/// Records a tunable, overwriting the entry of the same name if one exists.
fn upsert_param(v: &mut Vec<KernelParam>, x: KernelParam)
    requires
        unique_param_names(old(v)@),
    ensures
        unique_param_names(final(v)@),
        params_map(final(v)@) == params_map(old(v)@).insert(x.name@, x.value@),
{
    let n = v.len();
    for i in 0..n
        invariant
            n == v@.len(),
            v@ == old(v)@,
            unique_param_names(v@),
            forall|k: int| 0 <= k < i ==> (#[trigger] v@[k]).name@ != x.name@,
    {
        if v[i].name == x.name {
            let ghost oldv = v@;
            v.remove(i);
            v.insert(i, x);
            proof {
                assert(v@ =~= oldv.update(i as int, x));
                lemma_params_map_update(oldv, i as int, x);
                assert(unique_param_names(v@)) by {
                    assert(forall|k: int|
                        0 <= k < v@.len() && k != i ==> (#[trigger] v@[k]).name@ == oldv[k].name@);
                }
            }
            return;
        }
    }
    v.push(x);
    proof {
        assert(v@.drop_last() =~= old(v)@);
        assert(unique_param_names(v@)) by {
            assert(forall|k: int| 0 <= k < v@.len() - 1 ==> v@[k] == old(v)@[k]);
        }
    }
}

/// Law: when several lines define the same key, the value of the last
/// defining occurrence is the one the mapping holds.
pub proof fn lemma_params_last_wins(lines: Seq<Seq<char>>, j: int)
    requires
        0 <= j < lines.len(),
        param_of_line(lines[j]) is Some,
        forall|k: int|
            j < k < lines.len() ==> match param_of_line(#[trigger] lines[k]) {
                Some(kv) => kv.0 != param_of_line(lines[j]).unwrap().0,
                None => true,
            },
    ensures
        spec_params_lines(lines).contains_key(param_of_line(lines[j]).unwrap().0),
        spec_params_lines(lines)[param_of_line(lines[j]).unwrap().0] == param_of_line(
            lines[j],
        ).unwrap().1,
    decreases lines.len(),
{
    if j == lines.len() - 1 {
    } else {
        assert(forall|k: int| 0 <= k < lines.len() - 1 ==> lines.drop_last()[k] == lines[k]);
        lemma_params_last_wins(lines.drop_last(), j);
        assert(lines.last() == lines[lines.len() - 1]);
    }
}

// ------------------------------------------------------------------
// loaded modules: a header line, then one module per line with at
// least name, size and a comma-separated dependent list
// ------------------------------------------------------------------

pub open spec fn spec_loaded_state() -> Seq<char> {
    seq!['l', 'o', 'a', 'd', 'e', 'd']
}

/// The module record one line contributes: at least three whitespace
/// tokens, the third split strictly on commas; fewer tokens contribute
/// nothing at all.
pub open spec fn module_of_line(l: Seq<char>) -> Option<ModuleV> {
    let ts = spec_tokens(l);
    if ts.len() >= 3 {
        Some(
            ModuleV {
                name: ts[0],
                size: ts[1],
                used_by: spec_split(ts[2], ','),
                state: spec_loaded_state(),
            },
        )
    } else {
        None
    }
}

/// Law: a line with fewer than three whitespace-separated fields
/// contributes no module record — no partial record is emitted.
pub proof fn lemma_module_short_line(l: Seq<char>)
    requires
        spec_tokens(l).len() < 3,
    ensures
        module_of_line(l) is None,
{
}

/// Law: the first line of a module listing is a header and is always
/// skipped: whatever newline-free text stands there, the modules parsed are
/// exactly those of the lines after it.
pub proof fn lemma_modules_header_skipped(h: Seq<char>, rest: Seq<char>)
    requires
        forall|i: int| 0 <= i < h.len() ==> #[trigger] h[i] != '\n',
    ensures
        spec_modules(h + seq!['\n'] + rest) == spec_modules_lines(spec_split(rest, '\n')),
{
    lemma_split_prefix(h, rest, '\n');
    let lines = spec_split(h + seq!['\n'] + rest, '\n');
    lemma_split_len(rest, '\n');
    assert(lines.skip(1) =~= spec_split(rest, '\n'));
}

/// Law: the dependent list splits strictly on commas, so a third token
/// holding a single dependent and no comma yields a one-element list.
pub proof fn lemma_module_single_dependent(l: Seq<char>)
    requires
        spec_tokens(l).len() >= 3,
        forall|i: int| 0 <= i < spec_tokens(l)[2].len() ==> #[trigger] spec_tokens(l)[2][i] != ',',
    ensures
        module_of_line(l) is Some,
        module_of_line(l).unwrap().used_by == seq![spec_tokens(l)[2]],
{
    lemma_split_no_sep(spec_tokens(l)[2], ',');
}

pub open spec fn spec_modules_lines(lines: Seq<Seq<char>>) -> Seq<ModuleV>
    decreases lines.len(),
{
    if lines.len() == 0 {
        Seq::<ModuleV>::empty()
    } else {
        spec_modules_lines(lines.drop_last()) + match module_of_line(lines.last()) {
            Some(m) => seq![m],
            None => Seq::<ModuleV>::empty(),
        }
    }
}

/// The modules of a whole enumerator listing; the first line is a header
/// and is always skipped.
pub open spec fn spec_modules(s: Seq<char>) -> Seq<ModuleV> {
    let lines = spec_split(s, '\n');
    if lines.len() >= 1 {
        spec_modules_lines(lines.skip(1))
    } else {
        Seq::<ModuleV>::empty()
    }
}

pub open spec fn modules_views(v: Seq<KernelModule>) -> Seq<ModuleV> {
    v.map_values(|m: KernelModule| m@)
}

// ------------------------------------------------------------------
// kernel log lines: a syslog-style timestamp, a tag ending in a
// colon, then the free-text message
// ------------------------------------------------------------------

/// Position `k` carries the tag's colon: a colon preceded by a word
/// character and followed by whitespace.
pub open spec fn tag_colon_at(s: Seq<char>, k: int) -> bool {
    &&& 0 < k
    &&& k + 1 < s.len()
    &&& s[k] == ':'
    &&& word_char(s[k - 1])
    &&& ws_char(s[k + 1])
}

pub open spec fn find_tag_colon(s: Seq<char>, j: int) -> Option<int>
    decreases s.len() - j,
{
    if j < 0 || j >= s.len() {
        None
    } else if tag_colon_at(s, j) {
        Some(j)
    } else {
        find_tag_colon(s, j + 1)
    }
}

/// Start of the maximal run of word characters that ends at `k`.
pub open spec fn word_run_start(s: Seq<char>, k: int) -> int
    decreases k,
{
    if k <= 0 || k > s.len() {
        k
    } else if word_char(s[k - 1]) {
        word_run_start(s, k - 1)
    } else {
        k
    }
}

/// The record a log line contributes. The shape asked of a line: a word
/// (month), whitespace, digits (day), whitespace, a digits-colon-digits-
/// colon-digits time; the timestamp is that whole prefix. After it, the
/// first colon preceded by a word character and followed by whitespace ends
/// the tag; the message is what follows that whitespace and must not be
/// empty. Any other line contributes nothing.
pub open spec fn parse_log_line(l: Seq<char>) -> Option<LogV> {
    let i1 = run_end(l, 0, CharClass::Word);
    if i1 <= 0 {
        None
    } else {
        let i2 = run_end(l, i1, CharClass::Ws);
        if i2 <= i1 {
            None
        } else {
            let i3 = run_end(l, i2, CharClass::Digit);
            if i3 <= i2 {
                None
            } else {
                let i4 = run_end(l, i3, CharClass::Ws);
                if i4 <= i3 {
                    None
                } else {
                    let i5 = run_end(l, i4, CharClass::Digit);
                    if i5 <= i4 || i5 >= l.len() || l[i5] != ':' {
                        None
                    } else {
                        let i6 = run_end(l, i5 + 1, CharClass::Digit);
                        if i6 <= i5 + 1 || i6 >= l.len() || l[i6] != ':' {
                            None
                        } else {
                            let i7 = run_end(l, i6 + 1, CharClass::Digit);
                            if i7 <= i6 + 1 {
                                None
                            } else {
                                match find_tag_colon(l, i7) {
                                    None => None,
                                    Some(k) => {
                                        let m = run_end(l, k + 1, CharClass::Ws);
                                        if m >= l.len() {
                                            None
                                        } else {
                                            Some(
                                                LogV {
                                                    timestamp: l.subrange(0, i7),
                                                    level: l.subrange(word_run_start(l, k), k),
                                                    message: l.subrange(m, l.len() as int),
                                                },
                                            )
                                        }
                                    },
                                }
                            }
                        }
                    }
                }
            }
        }
    }
}

pub open spec fn spec_logs_lines(lines: Seq<Seq<char>>) -> Seq<LogV>
    decreases lines.len(),
{
    if lines.len() == 0 {
        Seq::<LogV>::empty()
    } else {
        spec_logs_lines(lines.drop_last()) + match parse_log_line(lines.last()) {
            Some(g) => seq![g],
            None => Seq::<LogV>::empty(),
        }
    }
}

/// The log records of a whole tailer output, in input order.
pub open spec fn spec_logs(s: Seq<char>) -> Seq<LogV> {
    spec_logs_lines(spec_split(s, '\n'))
}

pub open spec fn logs_views(v: Seq<KernelLog>) -> Seq<LogV> {
    v.map_values(|g: KernelLog| g@)
}

/// Law: per-line parsing distributes over concatenation of line blocks.
pub proof fn lemma_logs_append(a: Seq<Seq<char>>, b: Seq<Seq<char>>)
    ensures
        spec_logs_lines(a + b) == spec_logs_lines(a) + spec_logs_lines(b),
    decreases b.len(),
{
    if b.len() == 0 {
        assert(a + b =~= a);
        assert(spec_logs_lines(a) + spec_logs_lines(b) =~= spec_logs_lines(a));
    } else {
        assert((a + b).drop_last() =~= a + b.drop_last());
        assert((a + b).last() == b.last());
        lemma_logs_append(a, b.drop_last());
        assert(spec_logs_lines(a + b) =~= spec_logs_lines(a) + spec_logs_lines(b));
    }
}

/// Law: a line that does not match the expected shape contributes zero
/// records and does not disturb the parse of the lines around it.
pub proof fn lemma_log_bad_line_dropped(a: Seq<Seq<char>>, bad: Seq<char>, b: Seq<Seq<char>>)
    requires
        parse_log_line(bad) is None,
    ensures
        spec_logs_lines(a + seq![bad] + b) == spec_logs_lines(a + b),
{
    lemma_logs_append(a + seq![bad], b);
    lemma_logs_append(a, seq![bad]);
    lemma_logs_append(a, b);
    assert(seq![bad].drop_last() =~= Seq::<Seq<char>>::empty());
    assert(seq![bad].last() == bad);
    assert(spec_logs_lines(Seq::<Seq<char>>::empty()) =~= Seq::<LogV>::empty());
    assert(spec_logs_lines(seq![bad]) =~= spec_logs_lines(seq![bad].drop_last()) + Seq::<
        LogV,
    >::empty());
    assert(spec_logs_lines(seq![bad]) =~= Seq::<LogV>::empty());
    assert(spec_logs_lines(a + seq![bad] + b) =~= spec_logs_lines(a + b));
}

// ------------------------------------------------------------------
// uptime and boot time
// ------------------------------------------------------------------

/// The first whitespace token is a seconds count with an optional dot and
/// fractional digits; everything else fails closed to zero.
pub open spec fn valid_uptime_token(t: Seq<char>) -> bool {
    let ps = spec_split(t, '.');
    &&& ps.len() <= 2
    &&& all_digits(ps[0])
    &&& (ps.len() == 1 || ps[1].len() == 0 || all_digits(ps[1]))
}

/// The whole seconds the uptime source reports: the integer part of its
/// first token, or zero when the token is absent, malformed, or too large
/// for the counter's width.
pub open spec fn spec_uptime_total(raw: Seq<char>) -> u64 {
    let toks = spec_tokens(raw);
    if toks.len() > 0 && valid_uptime_token(toks[0]) && digits_val(spec_split(toks[0], '.')[0])
        <= u64::MAX {
        digits_val(spec_split(toks[0], '.')[0]) as u64
    } else {
        0
    }
}

pub open spec fn boot_marker() -> Seq<char> {
    seq!['s', 'y', 's', 't', 'e', 'm', ' ', 'b', 'o', 'o', 't']
}

/// The boot-time text: trimmed, stripped of every `system boot` marker,
/// and trimmed again.
pub open spec fn spec_last_boot(t: Seq<char>) -> Seq<char> {
    spec_trim(spec_remove_all(spec_trim(t), boot_marker()))
}

fn is_all_digits(s: &str) -> (b: bool)
    ensures
        b == all_digits(s@),
{
    let n = s.unicode_len();
    if n == 0 {
        return false;
    }
    let e = run_end_exec(s, 0, CharClass::Digit);
    proof {
        lemma_run_end(s@, 0, CharClass::Digit);
    }
    e == n
}

// ------------------------------------------------------------------
// the aggregator
// ------------------------------------------------------------------

/// The raw outcome of every probe one kernel snapshot needs.
pub struct KernelProbes {
    pub version: ProbeResult,
    pub release: ProbeResult,
    pub architecture: ProbeResult,
    pub os_name: ProbeResult,
    pub hostname: ProbeResult,
    pub uptime: ProbeResult,
    pub last_boot: ProbeResult,
    pub parameters: ProbeResult,
    pub modules: ProbeResult,
    pub logs: ProbeResult,
}

/// What the snapshot's uptime field holds for a probe outcome.
pub open spec fn uptime_field(r: ProbeResult) -> u64 {
    match probe_text(r) {
        Some(t) => spec_uptime_total(t),
        None => 0,
    }
}

/// What the snapshot's boot-time field holds for a probe outcome.
pub open spec fn boot_field(r: ProbeResult) -> Seq<char> {
    match probe_text(r) {
        Some(t) => spec_last_boot(t),
        None => Seq::<char>::empty(),
    }
}

/// What the snapshot's tunables field holds for a probe outcome.
pub open spec fn params_field(r: ProbeResult) -> Map<Seq<char>, Seq<char>> {
    match probe_text(r) {
        Some(t) => spec_params(t),
        None => Map::<Seq<char>, Seq<char>>::empty(),
    }
}

/// What the snapshot's module list holds for a probe outcome.
pub open spec fn modules_field(r: ProbeResult) -> Seq<ModuleV> {
    match probe_text(r) {
        Some(t) => spec_modules(t),
        None => Seq::<ModuleV>::empty(),
    }
}

/// What the snapshot's log list holds for a probe outcome.
pub open spec fn logs_field(r: ProbeResult) -> Seq<LogV> {
    match probe_text(r) {
        Some(t) => spec_logs(t),
        None => Seq::<LogV>::empty(),
    }
}

/// Law: a failed module-enumerator probe degrades the module list to the
/// empty sequence. Every other snapshot field is a function of its own
/// probe alone — see the aggregator's contract — so the snapshot as a whole
/// is still built, its other fields undisturbed.
pub proof fn lemma_partial_failure_modules(p: KernelProbes)
    requires
        p.modules is Err,
    ensures
        modules_field(p.modules) == Seq::<ModuleV>::empty(),
{
}

/// Parses kernel state out of probe text and assembles snapshots.
pub struct KernelCollector;

impl KernelCollector {
    pub fn new() -> Self {
        Self
    }

    /// Parses a tunables listing: one `key = value` per line, split on the
    /// first `=`, both sides trimmed; lines without `=` are skipped; a later
    /// duplicate key overwrites an earlier one.
    pub fn get_kernel_parameters(&self, raw: &str) -> (r: Vec<KernelParam>)
        ensures
            unique_param_names(r@),
            params_map(r@) == spec_params(raw@),
    {
        let lines = split_on(raw, '\n');
        let ghost ldv = lines.deep_view();
        let mut out: Vec<KernelParam> = Vec::new();
        let n = lines.len();
        proof {
            assert(ldv.subrange(0, 0) =~= Seq::<Seq<char>>::empty());
        }
        for i in 0..n
            invariant
                n == lines@.len(),
                ldv == lines.deep_view(),
                ldv == spec_split(raw@, '\n'),
                ldv.len() == n,
                unique_param_names(out@),
                params_map(out@) == spec_params_lines(ldv.subrange(0, i as int)),
        {
            proof {
                assert(ldv.subrange(0, i + 1).drop_last() =~= ldv.subrange(0, i as int));
                assert(ldv.subrange(0, i + 1).last() == ldv[i as int]);
                assert(lines@[i as int]@ == ldv[i as int]);
                reveal_strlit("=");
                assert("="@ =~= eq_marker());
            }
            let ls = lines[i].as_str();
            match find_sub_exec(ls, "=", 0) {
                None => {},
                Some(k) => {
                    let ln = ls.unicode_len();
                    let name = trim_str(ls.substring_char(0, k));
                    let value = trim_str(ls.substring_char(k + 1, ln));
                    upsert_param(&mut out, KernelParam { name, value });
                },
            }
        }
        proof {
            assert(ldv.subrange(0, n as int) =~= ldv);
        }
        out
    }

    /// Parses a module listing: the header line is skipped; every further
    /// line needs at least three whitespace tokens — name, size, and a
    /// dependent list split strictly on commas; shorter lines contribute no
    /// record at all.
    pub fn get_loaded_modules(&self, raw: &str) -> (r: Vec<KernelModule>)
        ensures
            modules_views(r@) == spec_modules(raw@),
    {
        let lines = split_on(raw, '\n');
        let ghost ldv = lines.deep_view();
        let mut out: Vec<KernelModule> = Vec::new();
        let n = lines.len();
        proof {
            lemma_split_len(raw@, '\n');
            assert(ldv.skip(1).subrange(0, 0) =~= Seq::<Seq<char>>::empty());
        }
        for i in 1..n
            invariant
                n == lines@.len(),
                n >= 1,
                ldv == lines.deep_view(),
                ldv == spec_split(raw@, '\n'),
                ldv.len() == n,
                modules_views(out@) == spec_modules_lines(ldv.skip(1).subrange(0, i - 1)),
        {
            proof {
                assert(ldv.skip(1).subrange(0, i - 1 + 1).drop_last() =~= ldv.skip(1).subrange(
                    0,
                    i - 1,
                ));
                assert(ldv.skip(1).subrange(0, i - 1 + 1).last() == ldv[i as int]);
                assert(lines@[i as int]@ == ldv[i as int]);
            }
            let ts = tokens_of(lines[i].as_str());
            proof {
                assert(ts.deep_view() == spec_tokens(ldv[i as int]));
            }
            if ts.len() >= 3 {
                proof {
                    assert(ts@[0]@ == ts.deep_view()[0]);
                    assert(ts@[1]@ == ts.deep_view()[1]);
                    assert(ts@[2]@ == ts.deep_view()[2]);
                    reveal_strlit("loaded");
                    assert("loaded"@ =~= spec_loaded_state());
                }
                let used_by = split_on(ts[2].as_str(), ',');
                let m = KernelModule {
                    name: ts[0].clone(),
                    size: ts[1].clone(),
                    used_by,
                    state: "loaded".to_owned(),
                };
                out.push(m);
                proof {
                    assert(modules_views(out@) =~= spec_modules_lines(
                        ldv.skip(1).subrange(0, i - 1 + 1),
                    ));
                }
            } else {
                proof {
                    assert(modules_views(out@) =~= spec_modules_lines(
                        ldv.skip(1).subrange(0, i - 1 + 1),
                    ));
                }
            }
        }
        proof {
            assert(ldv.skip(1).subrange(0, n - 1) =~= ldv.skip(1));
        }
        out
    }

    /// Parses kernel log text: each line matching the timestamp, tag and
    /// message shape contributes one record; any other line contributes
    /// nothing and parsing continues with the next line.
    pub fn get_kernel_logs(&self, raw: &str) -> (r: Vec<KernelLog>)
        ensures
            logs_views(r@) == spec_logs(raw@),
    {
        let lines = split_on(raw, '\n');
        let ghost ldv = lines.deep_view();
        let mut out: Vec<KernelLog> = Vec::new();
        let n = lines.len();
        proof {
            assert(ldv.subrange(0, 0) =~= Seq::<Seq<char>>::empty());
        }
        for i in 0..n
            invariant
                n == lines@.len(),
                ldv == lines.deep_view(),
                ldv == spec_split(raw@, '\n'),
                ldv.len() == n,
                logs_views(out@) == spec_logs_lines(ldv.subrange(0, i as int)),
        {
            proof {
                assert(ldv.subrange(0, i + 1).drop_last() =~= ldv.subrange(0, i as int));
                assert(ldv.subrange(0, i + 1).last() == ldv[i as int]);
                assert(lines@[i as int]@ == ldv[i as int]);
            }
            match parse_log_line_exec(lines[i].as_str()) {
                Some(g) => {
                    out.push(g);
                    proof {
                        assert(logs_views(out@) =~= spec_logs_lines(ldv.subrange(0, i + 1)));
                    }
                },
                None => {
                    proof {
                        assert(logs_views(out@) =~= spec_logs_lines(ldv.subrange(0, i + 1)));
                    }
                },
            }
        }
        proof {
            assert(ldv.subrange(0, n as int) =~= ldv);
        }
        out
    }

    /// Derives the uptime from the seconds counter's text: the integer part
    /// of the first token, failing closed to zero seconds on any deviation.
    pub fn get_system_uptime(&self, raw: &str) -> (r: SystemUptime)
        ensures
            uptime_wf(r),
            r.total_seconds == spec_uptime_total(raw@),
    {
        let toks = tokens_of(raw);
        let mut total: u64 = 0;
        if toks.len() > 0 {
            proof {
                assert(toks@[0]@ == toks.deep_view()[0]);
            }
            let ps = split_on(toks[0].as_str(), '.');
            proof {
                assert(ps@[0]@ == ps.deep_view()[0]);
            }
            if ps.len() <= 2 {
                match parse_u64(ps[0].as_str()) {
                    Some(v) => {
                        if ps.len() == 1 {
                            total = v;
                        } else {
                            proof {
                                assert(ps@[1]@ == ps.deep_view()[1]);
                            }
                            let frac = ps[1].as_str();
                            if frac.unicode_len() == 0 || is_all_digits(frac) {
                                total = v;
                            }
                        }
                    },
                    None => {},
                }
            }
        }
        SystemUptime::from_total_seconds(total)
    }

    /// Extracts the boot time from the boot source's text: trimmed, with
    /// every `system boot` marker removed, and trimmed again.
    pub fn get_last_boot_time(&self, raw: &str) -> (r: String)
        ensures
            r@ == spec_last_boot(raw@),
    {
        proof {
            reveal_strlit("system boot");
            assert("system boot"@ =~= boot_marker());
        }
        let t1 = trim_str(raw);
        let t2 = remove_all(t1.as_str(), "system boot");
        trim_str(t2.as_str())
    }

    /// Assembles the kernel snapshot from the probe outcomes under the
    /// partial-failure policy: each field is computed from its own probe's
    /// text, and a failed probe degrades that field — and only that field —
    /// to its zero value. The snapshot itself is always built.
    pub fn get_kernel_info(&self, probes: KernelProbes) -> (r: KernelInfo)
        ensures
            r.version@ == trimmed_field(probes.version),
            r.release@ == trimmed_field(probes.release),
            r.architecture@ == trimmed_field(probes.architecture),
            r.os_name@ == trimmed_field(probes.os_name),
            r.hostname@ == trimmed_field(probes.hostname),
            uptime_wf(r.uptime),
            r.uptime.total_seconds == uptime_field(probes.uptime),
            r.last_boot@ == boot_field(probes.last_boot),
            unique_param_names(r.kernel_parameters@),
            params_map(r.kernel_parameters@) == params_field(probes.parameters),
            modules_views(r.loaded_modules@) == modules_field(probes.modules),
            logs_views(r.logs@) == logs_field(probes.logs),
    {
        let uptime = match &probes.uptime {
            Ok(t) => self.get_system_uptime(t.as_str()),
            Err(_) => SystemUptime::from_total_seconds(0),
        };
        let last_boot = match &probes.last_boot {
            Ok(t) => self.get_last_boot_time(t.as_str()),
            Err(_) => String::new(),
        };
        let kernel_parameters = match &probes.parameters {
            Ok(t) => self.get_kernel_parameters(t.as_str()),
            Err(_) => Vec::new(),
        };
        let loaded_modules = match &probes.modules {
            Ok(t) => self.get_loaded_modules(t.as_str()),
            Err(_) => Vec::new(),
        };
        let logs = match &probes.logs {
            Ok(t) => self.get_kernel_logs(t.as_str()),
            Err(_) => Vec::new(),
        };
        proof {
            assert(modules_views(Seq::<KernelModule>::empty()) =~= Seq::<ModuleV>::empty());
            assert(logs_views(Seq::<KernelLog>::empty()) =~= Seq::<LogV>::empty());
        }
        KernelInfo {
            version: trimmed_of(&probes.version),
            release: trimmed_of(&probes.release),
            architecture: trimmed_of(&probes.architecture),
            os_name: trimmed_of(&probes.os_name),
            hostname: trimmed_of(&probes.hostname),
            uptime,
            last_boot,
            kernel_parameters,
            loaded_modules,
            logs,
        }
    }
}

/// The trimmed text of a successful probe, or the empty string.
fn trimmed_of(r: &ProbeResult) -> (s: String)
    ensures
        s@ == trimmed_field(*r),
{
    match r {
        Ok(t) => trim_str(t.as_str()),
        Err(_) => String::new(),
    }
}

fn parse_log_line_exec(l: &str) -> (r: Option<KernelLog>)
    ensures
        match r {
            Some(g) => parse_log_line(l@) == Some(g@),
            None => parse_log_line(l@) is None,
        },
{
    let n = l.unicode_len();
    let i1 = run_end_exec(l, 0, CharClass::Word);
    if i1 == 0 {
        return None;
    }
    let i2 = run_end_exec(l, i1, CharClass::Ws);
    if i2 == i1 {
        return None;
    }
    let i3 = run_end_exec(l, i2, CharClass::Digit);
    if i3 == i2 {
        return None;
    }
    let i4 = run_end_exec(l, i3, CharClass::Ws);
    if i4 == i3 {
        return None;
    }
    let i5 = run_end_exec(l, i4, CharClass::Digit);
    if i5 == i4 || i5 >= n || l.get_char(i5) != ':' {
        return None;
    }
    let i6 = run_end_exec(l, i5 + 1, CharClass::Digit);
    if i6 == i5 + 1 || i6 >= n || l.get_char(i6) != ':' {
        return None;
    }
    let i7 = run_end_exec(l, i6 + 1, CharClass::Digit);
    if i7 == i6 + 1 {
        return None;
    }
    match find_tag_colon_exec(l, i7) {
        None => None,
        Some(k) => {
            let m = run_end_exec(l, k + 1, CharClass::Ws);
            if m >= n {
                None
            } else {
                let ws = word_run_start_exec(l, k);
                Some(
                    KernelLog {
                        timestamp: l.substring_char(0, i7).to_owned(),
                        level: l.substring_char(ws, k).to_owned(),
                        message: l.substring_char(m, n).to_owned(),
                    },
                )
            }
        },
    }
}

fn find_tag_colon_exec(l: &str, j: usize) -> (r: Option<usize>)
    requires
        j <= l@.len(),
    ensures
        match r {
            Some(k) => find_tag_colon(l@, j as int) == Some(k as int) && j <= k < l@.len(),
            None => find_tag_colon(l@, j as int) is None,
        },
    decreases l@.len() - j,
{
    let n = l.unicode_len();
    if j >= n {
        None
    } else {
        let at = j > 0 && j + 1 < n && l.get_char(j) == ':' && char_in_class_exec(
            CharClass::Word,
            l.get_char(j - 1),
        ) && char_in_class_exec(CharClass::Ws, l.get_char(j + 1));
        if at {
            Some(j)
        } else {
            find_tag_colon_exec(l, j + 1)
        }
    }
}

fn word_run_start_exec(l: &str, k: usize) -> (r: usize)
    requires
        k <= l@.len(),
    ensures
        r as int == word_run_start(l@, k as int),
        r <= k,
    decreases k,
{
    if k == 0 {
        0
    } else if char_in_class_exec(CharClass::Word, l.get_char(k - 1)) {
        word_run_start_exec(l, k - 1)
    } else {
        k
    }
}

} // verus!
