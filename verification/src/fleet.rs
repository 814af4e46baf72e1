//! Fleet supervision decisions: which port a collection's server gets, what
//! `start` / `stop` do for a registered collection, and how the registry is
//! reconciled with the processes that are actually alive.

use vstd::prelude::*;
use crate::config::{decimal, decimal_chars};
use crate::path::{join, join_spec};
use crate::text::{append_range, chars_of, eq_lit, owned, push_char, push_str};

verus! {

/// First port handed out to collection servers.
pub const PORT_BASE: u16 = 6700;

/// Number of ports handed out, starting at `PORT_BASE`.
pub const PORT_RANGE: u16 = 100;

/// One registered collection server.
#[derive(Debug, Clone)]
pub struct Row {
    pub name: String,
    pub config_path: String,
    pub port: u16,
    pub pid: Option<i32>,
    pub status: String,
    pub started_at: Option<i64>,
}

/// `n` in decimal, with a leading `-` when negative (`Display` for signed integers).
pub open spec fn signed_decimal(n: int) -> Seq<char> {
    if n < 0 {
        seq!['-'] + decimal((-n) as nat)
    } else {
        decimal(n as nat)
    }
}

fn push_signed(out: &mut String, n: i64)
    ensures
        final(out)@ == old(out)@ + signed_decimal(n as int),
{
    let m: u64 = if n < 0 {
        push_char(out, '-');
        if n == i64::MIN {
            9223372036854775808u64
        } else {
            (-n) as u64
        }
    } else {
        n as u64
    };
    let d = decimal_chars(m);
    append_range(out, &d, 0, d.len());
    assert(d@.subrange(0, d.len() as int) =~= d@);
}

// ---------------------------------------------------------------------------
// Ports

/// The port `pick_port` hands out: the preferred port when it is free, else the
/// first free port in `[PORT_BASE, PORT_BASE + PORT_RANGE)`, else none.
pub open spec fn port_choice(used: Seq<u16>, prefer: Option<u16>) -> Option<u16> {
    match prefer {
        Some(p) if !used.contains(p) => Some(p),
        _ => first_free(used, PORT_BASE as nat),
    }
}

/// The first port in `[from, PORT_BASE + PORT_RANGE)` that is not in `used`.
pub open spec fn first_free(used: Seq<u16>, from: nat) -> Option<u16>
    decreases (PORT_BASE + PORT_RANGE) - from,
{
    if from >= PORT_BASE + PORT_RANGE {
        None
    } else if !used.contains(from as u16) {
        Some(from as u16)
    } else {
        first_free(used, from + 1)
    }
}

pub proof fn lemma_first_free(used: Seq<u16>, from: nat)
    ensures
        match first_free(used, from) {
            Some(p) => from <= p < PORT_BASE + PORT_RANGE && !used.contains(p),
            None => true,
        },
    decreases (PORT_BASE + PORT_RANGE) - from,
{
    if from < PORT_BASE + PORT_RANGE && used.contains(from as u16) {
        lemma_first_free(used, from + 1);
    }
}

/// The ports in use, as a set.
fn used_set(used: &[u16]) -> (r: std::collections::HashSet<u16>)
    ensures
        r@ == used@.to_set(),
{
    broadcast use vstd::std_specs::hash::group_hash_axioms;
    let mut set: std::collections::HashSet<u16> = std::collections::HashSet::new();
    let mut i: usize = 0;
    while i < used.len()
        invariant
            i <= used@.len(),
            set@ == used@.take(i as int).to_set(),
        decreases used.len() - i,
    {
        set.insert(used[i]);
        assert(used@.take(i + 1) =~= used@.take(i as int).push(used@[i as int]));
        proof {
            used@.take(i as int).lemma_push_to_set_commute(used@[i as int]);
        }
        i = i + 1;
    }
    assert(used@.take(used.len() as int) =~= used@);
    set
}

/// Pick a port for a collection server: `prefer` if no registered server uses
/// it, else the first unused port of the range.
pub fn pick_port(used: &[u16], prefer: Option<u16>) -> (r: Result<u16, String>)
    ensures
        match r {
            Ok(p) => port_choice(used@, prefer) == Some(p),
            Err(m) => port_choice(used@, prefer) is None && m@ == "no free ports in range"@,
        },
{
    broadcast use vstd::std_specs::hash::group_hash_axioms;
    let set = used_set(used);
    assert(forall|q: u16| set@.contains(q) <==> used@.contains(q));
    if let Some(p) = prefer {
        if !set.contains(&p) {
            return Ok(p);
        }
    }
    let mut p: u16 = PORT_BASE;
    assert(port_choice(used@, prefer) == first_free(used@, PORT_BASE as nat));
    while p < PORT_BASE + PORT_RANGE
        invariant
            PORT_BASE <= p <= PORT_BASE + PORT_RANGE,
            port_choice(used@, prefer) == first_free(used@, PORT_BASE as nat),
            first_free(used@, PORT_BASE as nat) == first_free(used@, p as nat),
            forall|q: u16| set@.contains(q) <==> used@.contains(q),
        decreases (PORT_BASE + PORT_RANGE) - p,
    {
        if !set.contains(&p) {
            return Ok(p);
        }
        p = p + 1;
    }
    Err(owned("no free ports in range"))
}

/// A handed-out port is never one already in use, so every registered server
/// keeps a port of its own.
pub proof fn lemma_port_choice_unused(used: Seq<u16>, prefer: Option<u16>)
    ensures
        match port_choice(used, prefer) {
            Some(p) => !used.contains(p),
            None => true,
        },
{
    lemma_first_free(used, PORT_BASE as nat);
}

proof fn lemma_first_free_none(used: Seq<u16>, from: nat)
    requires
        first_free(used, from) is None,
    ensures
        forall|p: u16| from <= p < PORT_BASE + PORT_RANGE ==> used.contains(p),
    decreases (PORT_BASE + PORT_RANGE) - from,
{
    if from < PORT_BASE + PORT_RANGE {
        lemma_first_free_none(used, from + 1);
        assert forall|p: u16| from <= p < PORT_BASE + PORT_RANGE implies used.contains(p) by {
            if p as nat == from {
                assert(used.contains(from as u16));
            }
        }
    }
}

/// The ports of the handed-out range.
pub open spec fn port_range() -> Set<u16> {
    Set::new(|p: u16| PORT_BASE <= p < PORT_BASE + PORT_RANGE)
}

/// The ports of the handed-out range that are in use.
pub open spec fn range_in_use(used: Seq<u16>) -> Set<u16> {
    Set::new(|p: u16| PORT_BASE <= p < PORT_BASE + PORT_RANGE && used.contains(p))
}

proof fn lemma_port_range_len()
    ensures
        port_range().finite(),
        port_range().len() == PORT_RANGE,
{
    let dom = vstd::set_lib::set_int_range(PORT_BASE as int, PORT_BASE + PORT_RANGE);
    let f = |i: int| i as u16;
    vstd::set_lib::lemma_int_range(PORT_BASE as int, PORT_BASE + PORT_RANGE);
    assert(vstd::relations::injective_on(f, dom));
    let img = dom.map(f);
    assert(img =~= port_range()) by {
        assert forall|p: u16| port_range().contains(p) implies img.contains(p) by {
            assert(dom.contains(p as int));
            assert(f(p as int) == p);
        }
    }
    vstd::set_lib::lemma_map_size(dom, img, f);
}

/// A port is always found while fewer than `PORT_RANGE` ports of the range are
/// in use, whatever the preferred port.
pub proof fn lemma_port_found(used: Seq<u16>, prefer: Option<u16>)
    requires
        range_in_use(used).len() < PORT_RANGE,
    ensures
        port_choice(used, prefer) is Some,
{
    if port_choice(used, prefer) is None {
        assert(first_free(used, PORT_BASE as nat) is None);
        lemma_first_free_none(used, PORT_BASE as nat);
        lemma_port_range_len();
        assert(range_in_use(used) =~= port_range());
    }
}

/// No two registered names share a port.
pub open spec fn ports_distinct(reg: Map<Seq<char>, u16>) -> bool {
    forall|a: Seq<char>, b: Seq<char>|
        reg.dom().contains(a) && reg.dom().contains(b) && a != b ==> #[trigger] reg[a] != #[trigger] reg[b]
}

/// Registering a server under the port `pick_port` chose from the registry's
/// ports keeps ports distinct, whether the name is new or re-registered.
pub proof fn lemma_register_keeps_ports_distinct(
    reg: Map<Seq<char>, u16>,
    used: Seq<u16>,
    name: Seq<char>,
    prefer: Option<u16>,
)
    requires
        ports_distinct(reg),
        forall|n: Seq<char>| reg.dom().contains(n) ==> used.contains(#[trigger] reg[n]),
        port_choice(used, prefer) is Some,
    ensures
        ports_distinct(reg.insert(name, port_choice(used, prefer)->0)),
{
    lemma_port_choice_unused(used, prefer);
    let p = port_choice(used, prefer)->0;
    let r2 = reg.insert(name, p);
    assert forall|a: Seq<char>, b: Seq<char>|
        r2.dom().contains(a) && r2.dom().contains(b) && a != b implies #[trigger] r2[a] != #[trigger] r2[b] by {
        if a == name {
            assert(used.contains(reg[b]));
        } else if b == name {
            assert(used.contains(reg[a]));
        }
    }
}

// ---------------------------------------------------------------------------
// start / stop

pub open spec fn running_name() -> Seq<char> {
    "running"@
}

pub open spec fn stopped_name() -> Seq<char> {
    "stopped"@
}

/// The message `start` returns without spawning, when the registered server is
/// running under a live pid.
pub open spec fn already_running_msg(name: Seq<char>, pid: i32, port: u16) -> Seq<char> {
    "already running\tname="@ + name + "\tpid="@ + signed_decimal(pid as int) + "\tport="@ + decimal(
        port as nat,
    )
}

/// The message after a server was spawned.
pub open spec fn started_msg(name: Seq<char>, pid: i32, port: u16) -> Seq<char> {
    "started\tname="@ + name + "\tpid="@ + signed_decimal(pid as int) + "\tport="@ + decimal(
        port as nat,
    )
}

/// `start`'s first decision. `pid_alive` reports whether the registered pid
/// (if any) still runs. `Some(message)` when the server is registered as
/// running under a live pid: nothing is to be spawned.
pub fn start_check(name: &str, existing: Option<&Row>, pid_alive: bool) -> (r: Option<String>)
    ensures
        match existing {
            Some(row) if row.status@ == running_name() && row.pid.is_some() && pid_alive => r
                is Some && r->0@ == already_running_msg(name@, row.pid->0, row.port),
            _ => r is None,
        },
{
    match existing {
        Some(row) => {
            if eq_lit(&chars_of(row.status.as_str()), "running") {
                if let Some(pid) = row.pid {
                    if pid_alive {
                        let mut m = owned("already running\tname=");
                        push_str(&mut m, name);
                        push_str(&mut m, "\tpid=");
                        push_signed(&mut m, pid as i64);
                        push_str(&mut m, "\tport=");
                        let d = decimal_chars(row.port as u64);
                        append_range(&mut m, &d, 0, d.len());
                        assert(d@.subrange(0, d.len() as int) =~= d@);
                        return Some(m);
                    }
                }
            }
            None
        },
        None => None,
    }
}

/// The message after a server was spawned under `pid` on `port`.
pub fn started_message(name: &str, pid: i32, port: u16) -> (r: String)
    ensures
        r@ == started_msg(name@, pid, port),
{
    let mut m = owned("started\tname=");
    push_str(&mut m, name);
    push_str(&mut m, "\tpid=");
    push_signed(&mut m, pid as i64);
    push_str(&mut m, "\tport=");
    let d = decimal_chars(port as u64);
    append_range(&mut m, &d, 0, d.len());
    assert(d@.subrange(0, d.len() as int) =~= d@);
    m
}

/// What `stop` does for a name.
#[derive(Debug)]
pub enum StopStep {
    /// Nothing to stop; report this message.
    Done(String),
    /// Terminate the pid (when there is one), then mark the row stopped.
    Terminate(Option<i32>),
}

/// `stop`'s decision: unregistered names and stopped servers are reported as
/// such; anything else is terminated.
pub fn stop_check(name: &str, existing: Option<&Row>) -> (r: StopStep)
    ensures
        match existing {
            None => r matches StopStep::Done(m) && m@ == "not registered\tname="@ + name@,
            Some(row) => if row.status@ == stopped_name() {
                r matches StopStep::Done(m) && m@ == "already stopped\tname="@ + name@
            } else {
                r == StopStep::Terminate(row.pid)
            },
        },
{
    match existing {
        None => {
            let mut m = owned("not registered\tname=");
            push_str(&mut m, name);
            StopStep::Done(m)
        },
        Some(row) => {
            if eq_lit(&chars_of(row.status.as_str()), "stopped") {
                let mut m = owned("already stopped\tname=");
                push_str(&mut m, name);
                StopStep::Done(m)
            } else {
                StopStep::Terminate(row.pid)
            }
        },
    }
}

/// The message after a server was stopped.
pub fn stopped_message(name: &str) -> (r: String)
    ensures
        r@ == "stopped\tname="@ + name@,
{
    let mut m = owned("stopped\tname=");
    push_str(&mut m, name);
    m
}

// ---------------------------------------------------------------------------
// Reconciliation

/// A row is reconciled to stopped when it is registered as running and it has
/// no pid or its process is not alive (`alive` is the liveness probe of its pid).
pub open spec fn goes_stopped(row: Row, alive: bool) -> bool {
    row.status@ == running_name() && (row.pid is None || !alive)
}

/// Uptime in seconds at `now` of a row with this status and start time:
/// elapsed since the start when running (never negative), else 0.
pub open spec fn uptime(status: Seq<char>, started_at: Option<i64>, now: i64) -> int {
    match started_at {
        Some(s) if status == running_name() => if now - s > 0 {
            now - s
        } else {
            0
        },
        _ => 0,
    }
}

/// Names of the rows reconciliation marks stopped, in registry order.
pub open spec fn names_to_stop(rows: Seq<Row>, alive: Seq<bool>) -> Seq<Seq<char>>
    decreases rows.len(),
{
    if rows.len() == 0 || alive.len() == 0 {
        Seq::empty()
    } else {
        names_to_stop(rows.drop_last(), alive.drop_last()) + if goes_stopped(
            rows.last(),
            alive.last(),
        ) {
            seq![rows.last().name@]
        } else {
            Seq::empty()
        }
    }
}

/// Reconcile the registry against reality: every row registered as running
/// that has no pid, or whose process is gone (`alive[i]` false), is marked stopped, with no pid and
/// no start time. Returns each row with its uptime at `now`, and the names to
/// mark stopped in the registry, in order.
pub fn reconcile(rows: &[Row], alive: &[bool], now: i64) -> (r: (Vec<(Row, u64)>, Vec<String>))
    requires
        alive@.len() == rows@.len(),
    ensures
        r.0@.len() == rows@.len(),
        forall|i: int|
            0 <= i < rows@.len() ==> {
                let row = #[trigger] r.0@[i].0;
                let before = rows@[i];
                &&& row.name@ == before.name@
                &&& row.config_path@ == before.config_path@
                &&& row.port == before.port
                &&& if goes_stopped(before, alive@[i]) {
                    row.status@ == stopped_name() && row.pid is None && row.started_at is None
                } else {
                    row.status@ == before.status@ && row.pid == before.pid && row.started_at
                        == before.started_at
                }
                &&& r.0@[i].1 as int == uptime(row.status@, row.started_at, now)
            },
        r.1@.map_values(|n: String| n@) == names_to_stop(rows@, alive@),
{
    let mut out: Vec<(Row, u64)> = Vec::new();
    let mut marks: Vec<String> = Vec::new();
    let mut i: usize = 0;
    while i < rows.len()
        invariant
            i <= rows@.len(),
            alive@.len() == rows@.len(),
            out@.len() == i,
            forall|k: int|
                0 <= k < i ==> {
                    let row = #[trigger] out@[k].0;
                    let before = rows@[k];
                    &&& row.name@ == before.name@
                    &&& row.config_path@ == before.config_path@
                    &&& row.port == before.port
                    &&& if goes_stopped(before, alive@[k]) {
                        row.status@ == stopped_name() && row.pid is None && row.started_at is None
                    } else {
                        row.status@ == before.status@ && row.pid == before.pid && row.started_at
                            == before.started_at
                    }
                    &&& out@[k].1 as int == uptime(row.status@, row.started_at, now)
                },
            marks@.map_values(|n: String| n@) == names_to_stop(rows@.take(i as int), alive@.take(i as int)),
        decreases rows.len() - i,
    {
        let r = &rows[i];
        let running = eq_lit(&chars_of(r.status.as_str()), "running");
        let stop = running && (r.pid.is_none() || !alive[i]);
        assert(rows@.take(i + 1).drop_last() =~= rows@.take(i as int));
        assert(alive@.take(i + 1).drop_last() =~= alive@.take(i as int));
        let row = if stop {
            marks.push(r.name.clone());
            assert(marks@.map_values(|n: String| n@) =~= names_to_stop(rows@.take(i as int), alive@.take(i as int)).push(r.name@));
            Row {
                name: r.name.clone(),
                config_path: r.config_path.clone(),
                port: r.port,
                pid: None,
                status: owned("stopped"),
                started_at: None,
            }
        } else {
            assert(names_to_stop(rows@.take(i + 1), alive@.take(i + 1)) =~= names_to_stop(rows@.take(i as int), alive@.take(i as int)));
            Row {
                name: r.name.clone(),
                config_path: r.config_path.clone(),
                port: r.port,
                pid: r.pid,
                status: r.status.clone(),
                started_at: r.started_at,
            }
        };
        let up: u64 = match row.started_at {
            Some(s) => {
                if eq_lit(&chars_of(row.status.as_str()), "running") {
                    let d: i128 = now as i128 - s as i128;
                    if d > 0 {
                        d as u64
                    } else {
                        0
                    }
                } else {
                    0
                }
            },
            None => 0,
        };
        out.push((row, up));
        i = i + 1;
    }
    assert(rows@.take(rows.len() as int) =~= rows@);
    assert(alive@.take(alive.len() as int) =~= alive@);
    (out, marks)
}

/// The fleet-status line of a reconciled row.
pub open spec fn status_line_spec(row: Row, uptime: u64) -> Seq<char> {
    row.name@ + "\tport="@ + decimal(row.port as nat) + "\tstatus="@ + row.status@ + "\tuptime="@
        + decimal(uptime as nat) + "s\tpid="@ + match row.pid {
        Some(p) => signed_decimal(p as int),
        None => "-"@,
    }
}

/// One line of `librarian status` without a config: name, port, status,
/// uptime and pid (`-` when there is none).
pub fn status_line(row: &Row, uptime: u64) -> (r: String)
    ensures
        r@ == status_line_spec(*row, uptime),
{
    let mut m = row.name.clone();
    push_str(&mut m, "\tport=");
    let d = decimal_chars(row.port as u64);
    append_range(&mut m, &d, 0, d.len());
    assert(d@.subrange(0, d.len() as int) =~= d@);
    push_str(&mut m, "\tstatus=");
    push_str(&mut m, row.status.as_str());
    push_str(&mut m, "\tuptime=");
    let u = decimal_chars(uptime);
    append_range(&mut m, &u, 0, u.len());
    assert(u@.subrange(0, u.len() as int) =~= u@);
    push_str(&mut m, "s\tpid=");
    match row.pid {
        Some(p) => push_signed(&mut m, p as i64),
        None => push_str(&mut m, "-"),
    }
    m
}

// ---------------------------------------------------------------------------
// Where the registry and the server binary are

/// The registry file: `$LIBRARIAN_FLEET_DB` when set, else
/// `<home>/.librarian/fleet.sqlite`, with `home` falling back to `/var/lib/librarian`.
pub open spec fn registry_path_spec(env_db: Option<Seq<char>>, home: Option<Seq<char>>) -> Seq<char> {
    match env_db {
        Some(p) => p,
        None => join_spec(
            match home {
                Some(h) => h,
                None => "/var/lib/librarian"@,
            },
            ".librarian/fleet.sqlite"@,
        ),
    }
}

/// The registry file for the given `$LIBRARIAN_FLEET_DB` and `$HOME`.
pub fn registry_path(env_db: Option<&str>, home: Option<&str>) -> (r: String)
    ensures
        r@ == registry_path_spec(
            match env_db { Some(p) => Some(p@), None => None },
            match home { Some(h) => Some(h@), None => None },
        ),
{
    match env_db {
        Some(p) => owned(p),
        None => join(
            match home {
                Some(h) => h,
                None => "/var/lib/librarian",
            },
            ".librarian/fleet.sqlite",
        ),
    }
}

/// The collection-server binary: `$LIBRARIAN_COLLECTION_BIN` when set, else
/// `librarian-collection` (looked up on `PATH`).
pub fn collection_binary(env_bin: Option<&str>) -> (r: String)
    ensures
        r@ == match env_bin {
            Some(b) => b@,
            None => "librarian-collection"@,
        },
{
    match env_bin {
        Some(b) => owned(b),
        None => owned("librarian-collection"),
    }
}

// ---------------------------------------------------------------------------
// The registry across start and status

/// Registry names are unique (the registry's key).
pub open spec fn names_unique(rows: Seq<Row>) -> bool {
    forall|i: int, j: int|
        0 <= i < rows.len() && 0 <= j < rows.len() && i != j ==> #[trigger] rows[i].name@
            != #[trigger] rows[j].name@
}

/// No two rows share a port.
pub open spec fn rows_ports_distinct(rows: Seq<Row>) -> bool {
    forall|i: int, j: int|
        0 <= i < rows.len() && 0 <= j < rows.len() && i != j ==> #[trigger] rows[i].port
            != #[trigger] rows[j].port
}

/// The ports in use, in row order (what `start` picks a port against).
pub open spec fn ports_of(rows: Seq<Row>) -> Seq<u16> {
    rows.map_values(|r: Row| r.port)
}

/// Some row is registered under `name`.
pub open spec fn has_name(rows: Seq<Row>, name: Seq<char>) -> bool {
    exists|i: int| 0 <= i < rows.len() && #[trigger] rows[i].name@ == name
}

/// The port registered under `name`, if any (`start`'s preferred port).
pub open spec fn registered_port(rows: Seq<Row>, name: Seq<char>) -> Option<u16> {
    if has_name(rows, name) {
        Some(rows[choose|i: int| 0 <= i < rows.len() && #[trigger] rows[i].name@ == name].port)
    } else {
        None
    }
}

/// `after` is `before` with `r` upserted under its name: the row of that name
/// replaced in place, or `r` appended when there was none.
pub open spec fn upserted(before: Seq<Row>, after: Seq<Row>, r: Row) -> bool {
    &&& after.len() == if has_name(before, r.name@) {
        before.len()
    } else {
        before.len() + 1
    }
    &&& forall|i: int|
        0 <= i < before.len() ==> #[trigger] after[i] == if before[i].name@ == r.name@ {
            r
        } else {
            before[i]
        }
    &&& !has_name(before, r.name@) ==> after[before.len() as int] == r
}

/// Starting a server keeps the registry sound: when `start` registers `r`
/// under the port `pick_port` chose from the registry's ports (preferring the
/// name's own), that port lies in the handed-out range, the names stay unique,
/// every row keeps a port of its own, and only the row of that name changes.
pub proof fn lemma_start_keeps_registry_sound(before: Seq<Row>, after: Seq<Row>, r: Row)
    requires
        names_unique(before),
        rows_ports_distinct(before),
        upserted(before, after, r),
        port_choice(ports_of(before), registered_port(before, r.name@)) == Some(r.port),
    ensures
        PORT_BASE <= r.port < PORT_BASE + PORT_RANGE,
        names_unique(after),
        rows_ports_distinct(after),
        forall|i: int| 0 <= i < after.len() ==> (#[trigger] after[i].name@ == r.name@ <==> after[i] == r),
{
    let used = ports_of(before);
    lemma_port_choice_unused(used, registered_port(before, r.name@));
    assert forall|k: int| 0 <= k < before.len() implies used.contains(#[trigger] before[k].port) by {
        assert(used[k] == before[k].port);
    }
    match registered_port(before, r.name@) {
        Some(p) => {
            let i = choose|i: int| 0 <= i < before.len() && #[trigger] before[i].name@ == r.name@;
            assert(used.contains(before[i].port));
            lemma_first_free(used, PORT_BASE as nat);
        },
        None => {
            lemma_first_free(used, PORT_BASE as nat);
        },
    }
    assert(!used.contains(r.port));
    let n = before.len() as int;
    assert forall|i: int| 0 <= i < after.len() implies (#[trigger] after[i].name@ == r.name@
        <==> after[i] == r) by {
        if i < n {
            if before[i].name@ != r.name@ {
                assert(after[i] == before[i]);
            }
        }
    }
    assert forall|i: int, j: int|
        0 <= i < after.len() && 0 <= j < after.len() && i != j implies #[trigger] after[i].name@
        != #[trigger] after[j].name@ by {
        if i < n && j < n {
            if before[i].name@ != r.name@ && before[j].name@ != r.name@ {
                assert(after[i] == before[i] && after[j] == before[j]);
            } else if before[i].name@ == r.name@ {
                assert(before[j].name@ != r.name@);
                assert(after[j] == before[j]);
            } else {
                assert(after[i] == before[i]);
            }
        } else if i < n {
            assert(!has_name(before, r.name@));
            assert(before[i].name@ != r.name@);
            assert(after[i] == before[i]);
        } else if j < n {
            assert(!has_name(before, r.name@));
            assert(before[j].name@ != r.name@);
            assert(after[j] == before[j]);
        }
    }
    assert forall|i: int, j: int|
        0 <= i < after.len() && 0 <= j < after.len() && i != j implies #[trigger] after[i].port
        != #[trigger] after[j].port by {
        if i < n && j < n {
            if before[i].name@ != r.name@ && before[j].name@ != r.name@ {
                assert(after[i] == before[i] && after[j] == before[j]);
            } else if before[i].name@ == r.name@ {
                assert(before[j].name@ != r.name@);
                assert(after[j] == before[j]);
                assert(used.contains(before[j].port));
            } else {
                assert(after[i] == before[i]);
                assert(used.contains(before[i].port));
            }
        } else if i < n {
            assert(before[i].name@ != r.name@);
            assert(after[i] == before[i]);
            assert(used.contains(before[i].port));
        } else if j < n {
            assert(before[j].name@ != r.name@);
            assert(after[j] == before[j]);
            assert(used.contains(before[j].port));
        }
    }
}

/// `after` is `before` once every row named in `names` is marked stopped:
/// no pid, no start time, all else kept.
pub open spec fn marked_stopped(before: Seq<Row>, after: Seq<Row>, names: Seq<Seq<char>>) -> bool {
    &&& after.len() == before.len()
    &&& forall|i: int|
        0 <= i < before.len() ==> if names.contains(before[i].name@) {
            &&& (#[trigger] after[i]).name@ == before[i].name@
            &&& after[i].config_path@ == before[i].config_path@
            &&& after[i].port == before[i].port
            &&& after[i].status@ == stopped_name()
            &&& after[i].pid is None
            &&& after[i].started_at is None
        } else {
            after[i] == before[i]
        }
}

/// Some row named `n` is reconciled to stopped.
pub open spec fn stopping_name(rows: Seq<Row>, alive: Seq<bool>, n: Seq<char>) -> bool {
    exists|j: int| 0 <= j < rows.len() && #[trigger] rows[j].name@ == n && goes_stopped(rows[j], alive[j])
}

proof fn lemma_names_to_stop(rows: Seq<Row>, alive: Seq<bool>)
    requires
        alive.len() == rows.len(),
    ensures
        forall|i: int|
            0 <= i < rows.len() && goes_stopped(rows[i], alive[i]) ==> names_to_stop(rows, alive).contains(
                #[trigger] rows[i].name@,
            ),
        forall|k: int|
            0 <= k < names_to_stop(rows, alive).len() ==> stopping_name(
                rows,
                alive,
                #[trigger] names_to_stop(rows, alive)[k],
            ),
    decreases rows.len(),
{
    if rows.len() > 0 {
        let rp = rows.drop_last();
        let ap = alive.drop_last();
        lemma_names_to_stop(rp, ap);
        let prev = names_to_stop(rp, ap);
        let cur = names_to_stop(rows, alive);
        let n = rows.len() - 1;
        assert forall|i: int|
            0 <= i < rows.len() && goes_stopped(rows[i], alive[i]) implies cur.contains(
                #[trigger] rows[i].name@,
            ) by {
            if i < n {
                assert(rp[i] == rows[i] && ap[i] == alive[i]);
                let k = choose|k: int| 0 <= k < prev.len() && prev[k] == rows[i].name@;
                assert(cur[k] == prev[k]);
            } else {
                assert(cur[prev.len() as int] == rows[i].name@);
            }
        }
        assert forall|k: int| 0 <= k < cur.len() implies stopping_name(rows, alive, #[trigger] cur[k]) by {
            if k < prev.len() {
                assert(cur[k] == prev[k]);
                assert(stopping_name(rp, ap, prev[k]));
                let j = choose|j: int|
                    0 <= j < rp.len() && #[trigger] rp[j].name@ == prev[k] && goes_stopped(rp[j], ap[j]);
                assert(rp[j] == rows[j] && ap[j] == alive[j]);
                assert(rows[j].name@ == cur[k]);
            } else {
                assert(rows[n].name@ == cur[k]);
                assert(goes_stopped(rows[n], alive[n]));
            }
        }
    }
}

/// After `librarian status` stores its reconciliation, the stored registry is
/// exactly the rows it reports (a running row whose process is gone stored as
/// stopped with no pid and no start time, every other row unchanged), and no
/// stored row is running unless it has a pid whose process is alive.
pub proof fn lemma_status_leaves_no_dead_running(rows: Seq<Row>, alive: Seq<bool>, after: Seq<Row>)
    requires
        alive.len() == rows.len(),
        names_unique(rows),
        marked_stopped(rows, after, names_to_stop(rows, alive)),
    ensures
        forall|i: int|
            0 <= i < after.len() && (#[trigger] after[i]).status@ == running_name() ==> after[i].pid is Some
                && alive[i],
        forall|i: int|
            0 <= i < rows.len() ==> if goes_stopped(rows[i], alive[i]) {
                &&& (#[trigger] after[i]).name@ == rows[i].name@
                &&& after[i].port == rows[i].port
                &&& after[i].status@ == stopped_name()
                &&& after[i].pid is None
                &&& after[i].started_at is None
            } else {
                after[i] == rows[i]
            },
{
    lemma_names_to_stop(rows, alive);
    let names = names_to_stop(rows, alive);
    reveal_strlit("running");
    reveal_strlit("stopped");
    assert(running_name() != stopped_name()) by {
        assert(running_name()[0] != stopped_name()[0]);
    }
    assert forall|i: int| 0 <= i < rows.len() implies names.contains(rows[i].name@) == goes_stopped(
        rows[i],
        alive[i],
    ) by {
        if names.contains(rows[i].name@) {
            let k = choose|k: int| 0 <= k < names.len() && names[k] == rows[i].name@;
            assert(stopping_name(rows, alive, names[k]));
            let j = choose|j: int|
                0 <= j < rows.len() && #[trigger] rows[j].name@ == names[k] && goes_stopped(rows[j], alive[j]);
            assert(j == i);
        }
    }
    assert forall|i: int| 0 <= i < after.len() && (#[trigger] after[i]).status@ == running_name() implies after[i].pid is Some
        && alive[i] by {
        if !alive[i] || rows[i].pid is None {
            if rows[i].status@ == running_name() {
                assert(goes_stopped(rows[i], alive[i]));
                assert(after[i].status@ == stopped_name());
            } else {
                assert(!names.contains(rows[i].name@));
                assert(after[i] == rows[i]);
            }
        }
    }
}

} // verus!
