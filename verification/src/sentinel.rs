//! The sentinel bridge: decoding of the connection tracer's wire format,
//! process-identity resolution, endpoint classification, and the filter
//! policy for port-status events — plus the tracer-side message
//! production. Listening on the socket is I/O and lives outside the
//! library; batches of received text are handed in whole.
//!
//! Wire format: one record per line; fields separated by the byte 1;
//! each line prefixed by a one-byte status marker (0 = success,
//! 7 = error). A success record's fields are, in order: pid, local ip,
//! local port, remote ip, remote port, and a direction tag (`INCOMING`,
//! `OUT-GOING` or `LOCAL`).

use vstd::prelude::*;
use crate::context::Context;
use crate::text::{
    all_digits, dec_int, dec_val, join_with, list_contains, lower_seq, parse_i32_spec, parse_u64,
    split_all, split_chars, str_eq,
};

verus! {

/// One decoded connection record, endpoints classified, process
/// identity resolved.
pub struct Port {
    pub local_addr: String,
    pub remote_addr: String,
    pub lport: String,
    pub rport: String,
    pub state: String,
    pub pid: Option<i32>,
    pub exec_name: Option<String>,
    pub con_dir: String,
}

/// The contents of an optional string, by value.
pub open spec fn opt_view(o: Option<String>) -> Option<Seq<char>> {
    match o {
        Some(s) => Some(s@),
        None => None,
    }
}

impl Port {
    /// A value-equal copy.
    pub fn duplicate(&self) -> (r: Port)
        ensures
            r.local_addr@ == self.local_addr@,
            r.remote_addr@ == self.remote_addr@,
            r.lport@ == self.lport@,
            r.rport@ == self.rport@,
            r.state@ == self.state@,
            r.pid == self.pid,
            opt_view(r.exec_name) == opt_view(self.exec_name),
            r.con_dir@ == self.con_dir@,
    {
        let exec_name = match &self.exec_name {
            Some(e) => Some(e.clone()),
            None => None,
        };
        Port {
            local_addr: self.local_addr.clone(),
            remote_addr: self.remote_addr.clone(),
            lport: self.lport.clone(),
            rport: self.rport.clone(),
            state: self.state.clone(),
            pid: self.pid,
            exec_name,
            con_dir: self.con_dir.clone(),
        }
    }
}

/// Relies on `procfs::process::Process::new` and `Process::exe`: the
/// file name of the executable the host process table reports for
/// `pid`, if the process exists and its executable link can be read.
/// What comes back depends on the host's process table, so nothing
/// more is promised.
#[verifier::external_body]
fn resolve_exe(pid: i32) -> (r: Option<String>) {
    match procfs::process::Process::new(pid) {
        Ok(proc_entry) => match proc_entry.exe() {
            Ok(path) => path.file_name().map(|n| n.to_string_lossy().to_string()),
            Err(_) => None,
        },
        Err(_) => None,
    }
}

/// Relies on `procfs::net::tcp`: the IPv4 TCP socket table as (local
/// port, state) pairs, the port in decimal and the state in its debug
/// form. The table is host state, so nothing more is promised.
#[verifier::external_body]
fn tcp_entries() -> (r: Vec<(String, String)>) {
    match procfs::net::tcp() {
        Ok(entries) => entries
            .into_iter()
            .map(|e| (format!("{}", e.local_address.port()), format!("{:?}", e.state)))
            .collect(),
        Err(_) => Vec::new(),
    }
}

/// Relies on `procfs::net::tcp6`: the IPv6 TCP socket table, shaped as
/// [`tcp_entries`]. The table is host state, so nothing more is
/// promised.
#[verifier::external_body]
fn tcp6_entries() -> (r: Vec<(String, String)>) {
    match procfs::net::tcp6() {
        Ok(entries) => entries
            .into_iter()
            .map(|e| (format!("{}", e.local_address.port()), format!("{:?}", e.state)))
            .collect(),
        Err(_) => Vec::new(),
    }
}

/// The contents of a state table's entries.
pub open spec fn states_views(s: Seq<(String, String)>) -> Seq<(Seq<char>, Seq<char>)> {
    s.map_values(|p: (String, String)| (p.0@, p.1@))
}

/// True at the last position whose port key equals `k`. The table is
/// folded IPv4 first, IPv6 after, and a later entry for the same port
/// overrides an earlier one.
pub open spec fn state_last_at(st: Seq<(Seq<char>, Seq<char>)>, k: Seq<char>, i: int) -> bool {
    0 <= i < st.len() && st[i].0 == k && (forall|j: int| i < j < st.len() ==> st[j].0 != k)
}

/// The TCP state recorded for local port `k`, the last entry winning; a
/// port without an entry is `Closed`.
pub open spec fn state_of(st: Seq<(Seq<char>, Seq<char>)>, k: Seq<char>) -> Seq<char> {
    if exists|i: int| state_last_at(st, k, i) {
        let i = choose|i: int| state_last_at(st, k, i);
        st[i].1
    } else {
        "Closed"@
    }
}

proof fn lemma_state_last_at_unique(st: Seq<(Seq<char>, Seq<char>)>, k: Seq<char>, i: int, j: int)
    requires
        state_last_at(st, k, i),
        state_last_at(st, k, j),
    ensures
        i == j,
{
    if i < j {
        assert(st[j].0 != k);
    } else if j < i {
        assert(st[i].0 != k);
    }
}

/// Looks up the recorded TCP state of a local port.
pub fn lookup_state(states: &Vec<(String, String)>, lport: &str) -> (r: String)
    ensures
        r@ == state_of(states_views(states@), lport@),
{
    let ghost sv = states_views(states@);
    let n = states.len();
    let mut i: usize = n;
    while i > 0
        invariant
            n == states@.len(),
            i <= n,
            sv == states_views(states@),
            forall|j: int| i <= j < n ==> sv[j].0 != lport@,
        decreases i,
    {
        i = i - 1;
        if str_eq(states[i].0.as_str(), lport) {
            proof {
                assert(sv[i as int] == (states@[i as int].0@, states@[i as int].1@));
                assert(state_last_at(sv, lport@, i as int));
                let w = choose|w: int| state_last_at(sv, lport@, w);
                lemma_state_last_at_unique(sv, lport@, i as int, w);
            }
            return states[i].1.clone();
        }
        proof {
            assert(sv[i as int] == (states@[i as int].0@, states@[i as int].1@));
        }
    }
    proof {
        if exists|w: int| state_last_at(sv, lport@, w) {
            let w = choose|w: int| state_last_at(sv, lport@, w);
            assert(sv[w].0 != lport@);
        }
    }
    "Closed".to_owned()
}

/// A record with a resolved executable in the ignore-set is dropped;
/// one that resolved to nothing is kept.
pub open spec fn kept_by_stop(e: Option<Seq<char>>, stop: Seq<Seq<char>>) -> bool {
    match e {
        Some(name) => !stop.contains(name),
        None => true,
    }
}

/// Assembles a record from its decoded fields and the resolved process
/// identity, labelling it with the recorded TCP state of its local
/// port, and dropping it when its executable is in the ignore-set.
pub fn make_port(
    pid: Option<i32>,
    executable: Option<String>,
    local_addr: &str,
    lport: &str,
    remote_addr: &str,
    rport: &str,
    con_dir: &str,
    states: &Vec<(String, String)>,
    stop_execs: &Vec<String>,
) -> (r: Option<Port>)
    ensures
        match r {
            Some(p) => {
                &&& kept_by_stop(opt_view(executable), stop_execs.deep_view())
                &&& p.local_addr@ == local_addr@
                &&& p.remote_addr@ == remote_addr@
                &&& p.lport@ == lport@
                &&& p.rport@ == rport@
                &&& p.state@ == state_of(states_views(states@), lport@)
                &&& p.pid == pid
                &&& opt_view(p.exec_name) == opt_view(executable)
                &&& p.con_dir@ == con_dir@
            },
            None => !kept_by_stop(opt_view(executable), stop_execs.deep_view()),
        },
{
    let keep = match &executable {
        Some(e) => !list_contains(stop_execs, e.as_str()),
        None => true,
    };
    if !keep {
        return None;
    }
    let state = lookup_state(states, lport);
    Some(
        Port {
            local_addr: local_addr.to_owned(),
            remote_addr: remote_addr.to_owned(),
            lport: lport.to_owned(),
            rport: rport.to_owned(),
            state,
            pid,
            exec_name: executable,
            con_dir: con_dir.to_owned(),
        },
    )
}

/// An outbound record to a well-known web port is dropped when the
/// `ignore_web` policy flag is set; every other record is kept.
pub open spec fn keep_record(dir: Seq<char>, rport: Seq<char>, ignore_web: bool) -> bool {
    !(ignore_web && lower_seq(dir) == "out-going"@ && (rport == "80"@ || rport == "443"@))
}

/// Applies the web-traffic policy to one record.
pub fn keep_record_check(con_dir: &str, rport: &str, ignore_web: bool) -> (r: bool)
    ensures
        r == keep_record(con_dir@, rport@, ignore_web),
{
    if !ignore_web {
        return true;
    }
    let out = crate::text::eq_ignore_case(con_dir, "out-going");
    proof {
        reveal_strlit("out-going");
        assert(lower_seq("out-going"@) =~= "out-going"@);
    }
    let web = str_eq(rport, "80") || str_eq(rport, "443");
    !(out && web)
}

/// The `{key, value}` pairs of the context a surviving record emits, in
/// insertion order.
pub open spec fn port_context_view(p: Port) -> Seq<(Seq<char>, Seq<char>)> {
    seq![
        ("local_adr"@, p.local_addr@),
        ("remote_adr"@, p.remote_addr@),
        ("state"@, p.state@),
        (
            "executable"@,
            match p.exec_name {
                Some(e) => e@,
                None => Seq::<char>::empty(),
            },
        ),
        (
            "pid"@,
            match p.pid {
                Some(n) => dec_int(n as int),
                None => Seq::<char>::empty(),
            },
        ),
        ("connection_direction"@, p.con_dir@),
        ("local_port"@, p.lport@),
        ("remote_port"@, p.rport@),
    ]
}

/// Builds the context a record emits.
pub fn make_context(port: Port) -> (r: Context)
    ensures
        r.wf(),
        r@ == port_context_view(port),
{
    let mut context = Context::new();
    proof {
        reveal_strlit("local_adr");
        reveal_strlit("remote_adr");
        reveal_strlit("state");
        reveal_strlit("executable");
        reveal_strlit("pid");
        reveal_strlit("connection_direction");
        reveal_strlit("local_port");
        reveal_strlit("remote_port");
        assert(("local_adr"@).len() == 9);
        assert(("remote_adr"@).len() == 10);
        assert(("state"@).len() == 5);
        assert(("executable"@).len() == 10);
        assert(("pid"@).len() == 3);
        assert(("connection_direction"@).len() == 20);
        assert(("local_port"@).len() == 10);
        assert(("remote_port"@).len() == 11);
        assert(("remote_adr"@)[0] == 'r');
        assert(("executable"@)[0] == 'e');
        assert(("local_port"@)[0] == 'l');
    }
    context.insert("local_adr".to_owned(), port.local_addr);
    context.insert("remote_adr".to_owned(), port.remote_addr);
    context.insert("state".to_owned(), port.state);
    let executable = match port.exec_name {
        Some(exe) => exe,
        None => String::new(),
    };
    context.insert("executable".to_owned(), executable);
    let pid_text = match port.pid {
        Some(pid) => crate::text::i32_string(pid),
        None => String::new(),
    };
    context.insert("pid".to_owned(), pid_text);
    context.insert("connection_direction".to_owned(), port.con_dir);
    context.insert("local_port".to_owned(), port.lport);
    context.insert("remote_port".to_owned(), port.rport);
    proof {
        assert(context@ =~= port_context_view(port));
    }
    context
}

/// The contexts for a list of surviving records, in order.
pub fn make_port_contexts(ports: Vec<Port>) -> (r: Vec<Context>)
    ensures
        r@.len() == ports@.len(),
        forall|i: int| 0 <= i < r@.len() ==> (#[trigger] r@[i])@ == port_context_view(ports@[i])
            && r@[i].wf(),
{
    let n = ports.len();
    let mut r: Vec<Context> = Vec::new();
    let mut i: usize = 0;
    while i < n
        invariant
            n == ports@.len(),
            i <= n,
            r@.len() == i,
            forall|j: int| 0 <= j < i ==> (#[trigger] r@[j])@ == port_context_view(ports@[j])
                && r@[j].wf(),
        decreases n - i,
    {
        let p = ports[i].duplicate();
        proof {
            assert(port_context_view(p) =~= port_context_view(ports@[i as int]));
        }
        let c = make_context(p);
        r.push(c);
        i = i + 1;
    }
    r
}

/// A record that passed every filter: the ignore-set check made when
/// the record was assembled, the web-traffic policy, and the final
/// ignore-set check made before its context is emitted (a record that
/// resolved to nothing is caught here only when the ignore-set holds
/// the empty string).
pub open spec fn surviving_port(p: Port, stop: Seq<Seq<char>>, iw: bool) -> bool {
    &&& kept_by_stop(opt_view(p.exec_name), stop)
    &&& keep_record(p.con_dir@, p.rport@, iw)
    &&& !stop.contains(
        match p.exec_name {
            Some(e) => e@,
            None => Seq::<char>::empty(),
        },
    )
}

/// The context reads off some record that passed every filter.
pub open spec fn context_keeps(c: Context, stop: Seq<Seq<char>>, iw: bool) -> bool {
    exists|p: Port| #[trigger] port_context_view(p) == c@ && surviving_port(p, stop, iw)
}

/// The contents of a resolution list's entries.
pub open spec fn opt_views(s: Seq<Option<String>>) -> Seq<Option<Seq<char>>> {
    s.map_values(|o: Option<String>| opt_view(o))
}

/// The contents of an emitted batch: each context's key/value pairs.
pub open spec fn ctx_views(cs: Seq<Context>) -> Seq<Seq<(Seq<char>, Seq<char>)>> {
    cs.map_values(|c: Context| c@)
}

/// A line opens a well-formed record: nonempty, not an error record,
/// and holding the status marker plus at least six fields.
pub open spec fn line_ok(line: Seq<char>) -> bool {
    &&& line.len() > 0
    &&& line[0] != '\u{7}'
    &&& split_chars(line, '\u{1}').len() >= 7
}

/// The executable a record reads: the resolved name where its pid field
/// parses, nothing otherwise (an unparseable pid is never resolved).
pub open spec fn record_exec(f: Seq<Seq<char>>, resolution: Option<Seq<char>>) -> Option<
    Seq<char>,
> {
    if parse_i32_spec(f[1]) is Some {
        resolution
    } else {
        None
    }
}

/// An optional name, or the empty string.
pub open spec fn opt_or_empty(o: Option<Seq<char>>) -> Seq<char> {
    match o {
        Some(e) => e,
        None => Seq::empty(),
    }
}

/// A well-formed record survives every filter: the ignore-set check on
/// its resolved executable, the web-traffic policy, and the final
/// ignore-set check on the executable-or-empty name.
pub open spec fn record_kept(
    f: Seq<Seq<char>>,
    resolution: Option<Seq<char>>,
    stop: Seq<Seq<char>>,
    iw: bool,
) -> bool {
    let e = record_exec(f, resolution);
    &&& kept_by_stop(e, stop)
    &&& keep_record(f[6], f[5], iw)
    &&& !stop.contains(opt_or_empty(e))
}

/// The context a surviving record emits, read off its fields, its
/// resolved executable and the state table.
pub open spec fn record_context(
    f: Seq<Seq<char>>,
    resolution: Option<Seq<char>>,
    st: Seq<(Seq<char>, Seq<char>)>,
) -> Seq<(Seq<char>, Seq<char>)> {
    let e = record_exec(f, resolution);
    seq![
        ("local_adr"@, f[2]),
        ("remote_adr"@, f[4]),
        ("state"@, state_of(st, f[3])),
        ("executable"@, opt_or_empty(e)),
        (
            "pid"@,
            match parse_i32_spec(f[1]) {
                Some(v) => dec_int(v),
                None => Seq::<char>::empty(),
            },
        ),
        ("connection_direction"@, f[6]),
        ("local_port"@, f[3]),
        ("remote_port"@, f[5]),
    ]
}

/// One context per surviving line of a batch, in line order, for given
/// per-line resolutions and a given state table.
pub open spec fn batch_contexts(
    lines: Seq<Seq<char>>,
    res: Seq<Option<Seq<char>>>,
    st: Seq<(Seq<char>, Seq<char>)>,
    stop: Seq<Seq<char>>,
    iw: bool,
) -> Seq<Seq<(Seq<char>, Seq<char>)>>
    decreases lines.len(),
{
    if lines.len() == 0 || res.len() == 0 {
        Seq::empty()
    } else {
        let rest = batch_contexts(lines.drop_first(), res.drop_first(), st, stop, iw);
        let f = split_chars(lines[0], '\u{1}');
        if line_ok(lines[0]) && record_kept(f, res[0], stop, iw) {
            seq![record_context(f, res[0], st)] + rest
        } else {
            rest
        }
    }
}

fn dup_opt(o: &Option<String>) -> (r: Option<String>)
    ensures
        opt_view(r) == opt_view(*o),
{
    match o {
        Some(e) => Some(e.clone()),
        None => None,
    }
}

/// Assembles the contexts of one batch from its lines, the per-line
/// resolved executables, and the state table: exactly one context per
/// surviving record, in line order, each read off its line.
pub fn build_port_contexts(
    lines: &Vec<String>,
    resolutions: &Vec<Option<String>>,
    states: &Vec<(String, String)>,
    stop_execs: &Vec<String>,
    ignore_web: bool,
) -> (r: Vec<Context>)
    requires
        lines@.len() == resolutions@.len(),
    ensures
        ctx_views(r@) == batch_contexts(
            lines.deep_view(),
            opt_views(resolutions@),
            states_views(states@),
            stop_execs.deep_view(),
            ignore_web,
        ),
        forall|i: int| 0 <= i < r@.len() ==> (#[trigger] r@[i]).wf() && context_keeps(
            r@[i],
            stop_execs.deep_view(),
            ignore_web,
        ),
{
    let ghost lv = lines.deep_view();
    let ghost rv = opt_views(resolutions@);
    let ghost sv = states_views(states@);
    let ghost tv = stop_execs.deep_view();
    let ghost target = batch_contexts(lv, rv, sv, tv, ignore_web);
    let ln = lines.len();
    let mut out: Vec<Context> = Vec::new();
    let mut li: usize = 0;
    proof {
        assert(lv.skip(0) =~= lv);
        assert(rv.skip(0) =~= rv);
        assert(ctx_views(out@) =~= Seq::<Seq<(Seq<char>, Seq<char>)>>::empty());
        assert(ctx_views(out@) + batch_contexts(lv.skip(0), rv.skip(0), sv, tv, ignore_web)
            =~= target);
    }
    while li < ln
        invariant
            ln == lines@.len(),
            lines@.len() == resolutions@.len(),
            li <= ln,
            lv == lines.deep_view(),
            rv == opt_views(resolutions@),
            sv == states_views(states@),
            tv == stop_execs.deep_view(),
            target == batch_contexts(lv, rv, sv, tv, ignore_web),
            ctx_views(out@) + batch_contexts(
                lv.skip(li as int),
                rv.skip(li as int),
                sv,
                tv,
                ignore_web,
            ) =~= target,
            forall|i: int| 0 <= i < out@.len() ==> (#[trigger] out@[i]).wf() && context_keeps(
                out@[i],
                tv,
                ignore_web,
            ),
        decreases ln - li,
    {
        let ghost pre = out@;
        let line: &String = &lines[li];
        let ghost gl = lv[li as int];
        let ghost f = split_chars(gl, '\u{1}');
        let ghost rest = batch_contexts(
            lv.skip(li as int + 1),
            rv.skip(li as int + 1),
            sv,
            tv,
            ignore_web,
        );
        proof {
            assert(gl == line@);
            assert(lv.skip(li as int)[0] == gl);
            assert(lv.skip(li as int).drop_first() =~= lv.skip(li as int + 1));
            assert(rv.skip(li as int)[0] == rv[li as int]);
            assert(rv.skip(li as int).drop_first() =~= rv.skip(li as int + 1));
            assert(batch_contexts(lv.skip(li as int), rv.skip(li as int), sv, tv, ignore_web)
                == if line_ok(gl) && record_kept(f, rv[li as int], tv, ignore_web) {
                seq![record_context(f, rv[li as int], sv)] + rest
            } else {
                rest
            });
        }
        if line.as_str().unicode_len() == 0 {
            // a malformed (empty) line: skipped
            proof {
                assert(!line_ok(gl));
                assert(ctx_views(out@) + rest =~= target);
            }
        } else if line.as_str().get_char(0) == '\u{7}' {
            // an error record from the tracer: the caller logs it
            proof {
                assert(!line_ok(gl));
                assert(ctx_views(out@) + rest =~= target);
            }
        } else {
            let port_dat = split_all(line.as_str(), '\u{1}');
            proof {
                assert(port_dat.deep_view() == f);
            }
            if port_dat.len() < 7 {
                // a malformed record: skipped
                proof {
                    assert(!line_ok(gl));
                    assert(ctx_views(out@) + rest =~= target);
                }
            } else {
                proof {
                    assert(line_ok(gl));
                    assert(port_dat@[1]@ == f[1]);
                }
                let pid = crate::text::parse_i32(port_dat[1].as_str());
                let executable = match pid {
                    Some(_) => dup_opt(&resolutions[li]),
                    None => None,
                };
                proof {
                    assert(opt_views(resolutions@)[li as int] == opt_view(
                        resolutions@[li as int],
                    ));
                    assert(opt_view(executable) == record_exec(f, rv[li as int]));
                }
                let maybe = make_port(
                    pid,
                    executable,
                    port_dat[2].as_str(),
                    port_dat[3].as_str(),
                    port_dat[4].as_str(),
                    port_dat[5].as_str(),
                    port_dat[6].as_str(),
                    states,
                    stop_execs,
                );
                proof {
                    assert(port_dat@[2]@ == f[2]);
                    assert(port_dat@[3]@ == f[3]);
                    assert(port_dat@[4]@ == f[4]);
                    assert(port_dat@[5]@ == f[5]);
                    assert(port_dat@[6]@ == f[6]);
                }
                match maybe {
                    Some(port) => {
                        if keep_record_check(
                            port.con_dir.as_str(),
                            port.rport.as_str(),
                            ignore_web,
                        ) {
                            let ename = match &port.exec_name {
                                Some(e) => e.clone(),
                                None => String::new(),
                            };
                            if !list_contains(stop_execs, ename.as_str()) {
                                proof {
                                    assert(ename@ == opt_or_empty(record_exec(f, rv[li as int])));
                                    assert(record_kept(f, rv[li as int], tv, ignore_web));
                                    assert(surviving_port(port, tv, ignore_web));
                                }
                                let ghost pw = port;
                                let c = make_context(port);
                                proof {
                                    assert(c@ =~= record_context(f, rv[li as int], sv));
                                    assert(port_context_view(pw) == c@);
                                    assert(context_keeps(c, tv, ignore_web));
                                }
                                out.push(c);
                                proof {
                                    assert(ctx_views(out@) =~= ctx_views(pre).push(
                                        record_context(f, rv[li as int], sv),
                                    ));
                                    assert(ctx_views(out@) + rest =~= ctx_views(pre) + (seq![
                                        record_context(f, rv[li as int], sv),
                                    ] + rest));
                                    assert(ctx_views(out@) + rest =~= target);
                                }
                            } else {
                                proof {
                                    assert(ename@ == opt_or_empty(record_exec(f, rv[li as int])));
                                    assert(!record_kept(f, rv[li as int], tv, ignore_web));
                                    assert(ctx_views(out@) + rest =~= target);
                                }
                            }
                        } else {
                            proof {
                                assert(!keep_record(f[6], f[5], ignore_web));
                                assert(!record_kept(f, rv[li as int], tv, ignore_web));
                                assert(ctx_views(out@) + rest =~= target);
                            }
                        }
                    },
                    None => {
                        proof {
                            assert(!kept_by_stop(record_exec(f, rv[li as int]), tv));
                            assert(!record_kept(f, rv[li as int], tv, ignore_web));
                            assert(ctx_views(out@) + rest =~= target);
                        }
                    },
                }
            }
        }
        li = li + 1;
    }
    proof {
        assert(lv.skip(ln as int) =~= Seq::<Seq<char>>::empty());
        assert(rv.skip(ln as int).len() == 0 || lv.skip(ln as int).len() == 0);
        assert(batch_contexts(lv.skip(ln as int), rv.skip(ln as int), sv, tv, ignore_web)
            =~= Seq::<Seq<(Seq<char>, Seq<char>)>>::empty());
        assert(ctx_views(out@) =~= target);
    }
    out
}

/// Processes one batch of tracer text: splits it into records, resolves
/// each record's process identity against the host process table,
/// gathers the host's TCP state table, and assembles the surviving
/// records' contexts with [`build_port_contexts`]. The resolutions and
/// the state table are host state, so the contract promises the exact
/// assembly for some value of them — and, whatever they were, that
/// every emitted context reads off a record that passed every filter.
pub fn port_batch(ports: &str, stop_execs: &Vec<String>, ignore_web: bool) -> (r: Vec<Context>)
    ensures
        forall|i: int| 0 <= i < r@.len() ==> context_keeps(
            #[trigger] r@[i],
            stop_execs.deep_view(),
            ignore_web,
        ) && r@[i].wf(),
        exists|res: Seq<Option<Seq<char>>>, st: Seq<(Seq<char>, Seq<char>)>|
            res.len() == split_chars(ports@, '\n').len() && ctx_views(r@) == batch_contexts(
                split_chars(ports@, '\n'),
                res,
                st,
                stop_execs.deep_view(),
                ignore_web,
            ),
{
    let mut states = tcp_entries();
    let mut more = tcp6_entries();
    states.append(&mut more);
    let lines = split_all(ports, '\n');
    let ln = lines.len();
    let mut resolutions: Vec<Option<String>> = Vec::new();
    let mut li: usize = 0;
    while li < ln
        invariant
            ln == lines@.len(),
            li <= ln,
            resolutions@.len() == li,
        decreases ln - li,
    {
        let line: &String = &lines[li];
        let resolution = if line.as_str().unicode_len() == 0 {
            None
        } else if line.as_str().get_char(0) == '\u{7}' {
            None
        } else {
            let port_dat = split_all(line.as_str(), '\u{1}');
            if port_dat.len() < 7 {
                None
            } else {
                match crate::text::parse_i32(port_dat[1].as_str()) {
                    Some(p) => resolve_exe(p),
                    None => None,
                }
            }
        };
        resolutions.push(resolution);
        li = li + 1;
    }
    let r = build_port_contexts(&lines, &resolutions, &states, stop_execs, ignore_web);
    proof {
        let glines = split_chars(ports@, '\n');
        assert(lines.deep_view() == glines);
        let wres = opt_views(resolutions@);
        let wst = states_views(states@);
        assert(wres.len() == glines.len());
        assert(ctx_views(r@) == batch_contexts(
            glines,
            wres,
            wst,
            stop_execs.deep_view(),
            ignore_web,
        ));
        assert(exists|res: Seq<Option<Seq<char>>>, st: Seq<(Seq<char>, Seq<char>)>|
            res.len() == split_chars(ports@, '\n').len() && ctx_views(r@) == batch_contexts(
                split_chars(ports@, '\n'),
                res,
                st,
                stop_execs.deep_view(),
                ignore_web,
            ));
    }
    r
}

/// The endpoint classification the tracer makes: both addresses local
/// means a `LOCAL` connection, a local source means `OUT-GOING`, and
/// anything else means `INCOMING`; the local endpoint's data comes
/// first.
pub open spec fn sentinel_choice(
    sip: Seq<char>,
    sp: Seq<char>,
    dip: Seq<char>,
    dp: Seq<char>,
    ips: Seq<Seq<char>>,
) -> (Seq<char>, Seq<char>, Seq<char>, Seq<char>, Seq<char>) {
    if ips.contains(sip) && ips.contains(dip) {
        (sip, sp, dip, dp, "LOCAL"@)
    } else if ips.contains(sip) {
        (sip, sp, dip, dp, "OUT-GOING"@)
    } else {
        (dip, dp, sip, sp, "INCOMING"@)
    }
}

/// Builds one wire record on the tracer's side: classifies the
/// endpoints against the host's local addresses, and joins pid, local
/// ip, local port, remote ip, remote port and the direction tag with
/// the delimiter byte. A record whose local port is below 7 is dropped
/// (`Ok(None)`); one whose local port is not a port number at all is an
/// error (`Err`).
pub fn make_msg(
    pid: &str,
    source_ip: &str,
    source_p: &str,
    dest_ip: &str,
    dest_p: &str,
    local_ips: &Vec<String>,
) -> (r: Result<Option<String>, ()>)
    ensures
        ({
            let ch = sentinel_choice(source_ip@, source_p@, dest_ip@, dest_p@, local_ips.deep_view());
            let valid = ch.1.len() > 0 && all_digits(ch.1) && dec_val(ch.1) <= 65535;
            match r {
                Ok(Some(m)) => valid && dec_val(ch.1) >= 7 && m@ == join_with(
                    seq![pid@, ch.0, ch.1, ch.2, ch.3, ch.4],
                    seq!['\u{1}'],
                ),
                Ok(None) => valid && dec_val(ch.1) < 7,
                Err(()) => !valid,
            }
        }),
{
    let s_local = list_contains(local_ips, source_ip);
    let d_local = list_contains(local_ips, dest_ip);
    let mut parts: Vec<String> = Vec::new();
    parts.push(pid.to_owned());
    let dir: &str;
    if s_local && d_local {
        parts.push(source_ip.to_owned());
        parts.push(source_p.to_owned());
        parts.push(dest_ip.to_owned());
        parts.push(dest_p.to_owned());
        dir = "LOCAL";
    } else if s_local {
        parts.push(source_ip.to_owned());
        parts.push(source_p.to_owned());
        parts.push(dest_ip.to_owned());
        parts.push(dest_p.to_owned());
        dir = "OUT-GOING";
    } else {
        parts.push(dest_ip.to_owned());
        parts.push(dest_p.to_owned());
        parts.push(source_ip.to_owned());
        parts.push(source_p.to_owned());
        dir = "INCOMING";
    }
    parts.push(dir.to_owned());
    let lport: &String = &parts[2];
    let port_n = match crate::text::parse_u64(lport.as_str()) {
        Some(v) if v <= 65535 => v,
        _ => {
            return Err(());
        },
    };
    if port_n < 7 {
        return Ok(None);
    }
    let m = crate::text::join_strings(&parts, "\u{1}");
    proof {
        reveal_strlit("\u{1}");
        let ch = sentinel_choice(source_ip@, source_p@, dest_ip@, dest_p@, local_ips.deep_view());
        assert(parts.deep_view() =~= seq![pid@, ch.0, ch.1, ch.2, ch.3, ch.4]);
        assert(("\u{1}"@) =~= seq!['\u{1}']);
    }
    Ok(Some(m))
}

} // verus!
