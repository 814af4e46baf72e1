use librarian::fleet::{
    pick_port, reconcile, start_check, started_message, stop_check, stopped_message, Row, StopStep,
};
use librarian::fleet::status_line;

fn row(name: &str, port: u16, pid: Option<i32>, status: &str, started_at: Option<i64>) -> Row {
    Row {
        name: name.into(),
        config_path: format!("/cfg/{name}.toml"),
        port,
        pid,
        status: status.into(),
        started_at,
    }
}

#[test]
fn ports_prefer_then_first_free() {
    assert_eq!(pick_port(&[], None), Ok(6700));
    assert_eq!(pick_port(&[6700, 6701], None), Ok(6702));
    assert_eq!(pick_port(&[6700], Some(6750)), Ok(6750));
    assert_eq!(pick_port(&[6700, 6750], Some(6750)), Ok(6701));
    let all: Vec<u16> = (6700..6800).collect();
    assert_eq!(pick_port(&all, None), Err("no free ports in range".to_string()));
    assert_eq!(pick_port(&all, Some(9000)), Ok(9000));
}

#[test]
fn start_skips_live_running_servers() {
    let r = row("coll-a", 6700, Some(42), "running", Some(10));
    assert_eq!(
        start_check("coll-a", Some(&r), true),
        Some("already running\tname=coll-a\tpid=42\tport=6700".to_string())
    );
    assert_eq!(start_check("coll-a", Some(&r), false), None);
    let s = row("coll-a", 6700, None, "stopped", None);
    assert_eq!(start_check("coll-a", Some(&s), true), None);
    assert_eq!(start_check("coll-a", None, true), None);
    assert_eq!(started_message("b", 7, 6701), "started\tname=b\tpid=7\tport=6701");
    assert_eq!(started_message("b", -7, 6701), "started\tname=b\tpid=-7\tport=6701");
}

#[test]
fn stop_decisions() {
    match stop_check("nope", None) {
        StopStep::Done(m) => assert_eq!(m, "not registered\tname=nope"),
        other => panic!("{other:?}"),
    }
    let s = row("idem", 6700, None, "stopped", None);
    match stop_check("idem", Some(&s)) {
        StopStep::Done(m) => assert_eq!(m, "already stopped\tname=idem"),
        other => panic!("{other:?}"),
    }
    let r = row("idem", 6700, Some(9), "running", Some(1));
    match stop_check("idem", Some(&r)) {
        StopStep::Terminate(p) => assert_eq!(p, Some(9)),
        other => panic!("{other:?}"),
    }
    assert_eq!(stopped_message("idem"), "stopped\tname=idem");
}

#[test]
fn reconcile_marks_dead_running_rows_stopped() {
    let rows = vec![
        row("a", 6700, Some(1), "running", Some(100)),
        row("b", 6701, Some(2), "running", Some(150)),
        row("c", 6702, None, "stopped", None),
        row("d", 6703, Some(3), "running", Some(500)),
    ];
    let (out, marks) = reconcile(&rows, &[true, false, false, true], 200);
    assert_eq!(marks, vec!["b".to_string()]);
    assert_eq!(out[0].1, 100);
    assert_eq!(out[1].0.status, "stopped");
    assert_eq!(out[1].0.pid, None);
    assert_eq!(out[1].0.started_at, None);
    assert_eq!(out[1].1, 0);
    assert_eq!(out[2].0.status, "stopped");
    // A start time in the future gives no negative uptime.
    assert_eq!(out[3].1, 0);
    assert_eq!(out[3].0.port, 6703);
}

#[test]
fn status_lines() {
    let r = row("coll-a", 6700, Some(42), "running", Some(10));
    assert_eq!(status_line(&r, 90), "coll-a\tport=6700\tstatus=running\tuptime=90s\tpid=42");
    let s = row("coll-b", 6701, None, "stopped", None);
    assert_eq!(status_line(&s, 0), "coll-b\tport=6701\tstatus=stopped\tuptime=0s\tpid=-");
}

#[test]
fn registry_path_env_then_home_then_fallback() {
    assert_eq!(librarian::fleet::registry_path(Some("/tmp/f.sqlite"), Some("/home/u")), "/tmp/f.sqlite");
    assert_eq!(librarian::fleet::registry_path(None, Some("/home/u")), "/home/u/.librarian/fleet.sqlite");
    assert_eq!(
        librarian::fleet::registry_path(None, None),
        "/var/lib/librarian/.librarian/fleet.sqlite"
    );
    assert_eq!(librarian::fleet::collection_binary(Some("/bin/c")), "/bin/c");
    assert_eq!(librarian::fleet::collection_binary(None), "librarian-collection");
}

#[test]
fn reconcile_treats_a_running_row_without_pid_as_dead() {
    let rows = vec![row("a", 6700, None, "running", Some(100))];
    let (out, marks) = reconcile(&rows, &[true], 200);
    assert_eq!(marks, vec!["a".to_string()]);
    assert_eq!(out[0].0.status, "stopped");
    assert_eq!(out[0].1, 0);
}

#[test]
fn a_port_is_found_while_the_range_has_room() {
    let used: Vec<u16> = (6700..6799).collect();
    assert_eq!(pick_port(&used, None), Ok(6799));
    assert_eq!(pick_port(&used, Some(6750)), Ok(6799));
    let full: Vec<u16> = (6700..6800).collect();
    assert_eq!(pick_port(&full, Some(9000)), Ok(9000));
    assert_eq!(pick_port(&full, None), Err("no free ports in range".to_string()));
}
