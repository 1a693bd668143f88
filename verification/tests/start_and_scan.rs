use runcove_desktop::commands::{ports_ready, ready_poll, ReadyPoll};
use runcove_desktop::commands::{
    browser_url, cleans_up_after, failed_start_error, first_conflict, start_plan, status_after_failed_step, StartPlan,
    StartStep,
};
use runcove_desktop::discovery::{Admission, RootScan, MAX_DISCOVERED_PROJECTS, MAX_SCANNED_DIRECTORIES, MAX_SCAN_DEPTH};
use runcove_desktop::error::{invalid, AppError, RelatedPort};
use runcove_desktop::models::{ConnectionState, ExpectedPort, PortEntry, RunStatus};

fn tcp(port: u16) -> RelatedPort {
    RelatedPort { port, protocol: "tcp".into() }
}

#[test]
fn a_running_profile_is_reported_and_never_launched_twice() {
    match start_plan(Some(42), Some((tcp(5173), None))) {
        StartPlan::AlreadyRunning(pid) => assert_eq!(pid, 42),
        other => panic!("expected the running process, got {other:?}"),
    }
}

#[test]
fn a_taken_port_refuses_the_start_and_names_its_holder() {
    match start_plan(None, Some((tcp(5173), Some("node.exe".into())))) {
        StartPlan::Refuse(error) => {
            assert_eq!(error.message(), "Expected port 5173 is already occupied by node.exe");
            assert_eq!(error.related_port(), Some(&tcp(5173)));
        }
        other => panic!("expected a refusal, got {other:?}"),
    }
    match start_plan(None, Some((tcp(8080), None))) {
        StartPlan::Refuse(error) => assert_eq!(error.message(), "Expected port 8080 is already occupied"),
        other => panic!("expected a refusal, got {other:?}"),
    }
}

#[test]
fn nothing_in_the_way_launches() {
    assert!(matches!(start_plan(None, None), StartPlan::Launch));
}

#[test]
fn the_first_listener_on_an_expected_port_is_the_conflict() {
    let expected = vec![
        ExpectedPort { id: "a".into(), profile_id: "p".into(), port: 3000, protocol: "tcp".into() },
        ExpectedPort { id: "b".into(), profile_id: "p".into(), port: 5173, protocol: "TCP".into() },
    ];
    let entries = vec![
        PortEntry { state: ConnectionState::Other, port: 3000, protocol: "TCP".into(), pid: Some(1), process_name: None },
        PortEntry {
            state: ConnectionState::Listen,
            port: 5173,
            protocol: "TCP".into(),
            pid: Some(2),
            process_name: Some("vite".into()),
        },
    ];
    let (port, holder) = first_conflict(&expected, &entries).expect("a conflict");
    assert_eq!(port, RelatedPort { port: 5173, protocol: "TCP".into() });
    assert_eq!(holder.as_deref(), Some("vite"));
    assert!(first_conflict(&Vec::new(), &entries).is_none());
}

#[test]
fn a_failed_start_leaves_idle_before_a_session_and_exited_after() {
    assert_eq!(status_after_failed_step(StartStep::BeginSession), RunStatus::Idle);
    for step in [StartStep::Launch, StartStep::RecordPid, StartStep::SyncRestoreSet, StartStep::WaitReady] {
        assert_eq!(status_after_failed_step(step), RunStatus::Exited);
    }
    assert!(!cleans_up_after(StartStep::BeginSession));
    assert!(!cleans_up_after(StartStep::Launch));
    assert!(cleans_up_after(StartStep::RecordPid));
    assert!(cleans_up_after(StartStep::SyncRestoreSet));
    assert!(cleans_up_after(StartStep::WaitReady));
}

#[test]
fn a_failed_cleanup_is_reported_with_the_failure_it_followed() {
    let kept = failed_start_error(AppError::port_conflict("taken".into(), 80, "tcp".into()), Ok(()));
    assert_eq!(kept.message(), "taken");
    assert_eq!(kept.related_port(), Some(&RelatedPort { port: 80, protocol: "tcp".into() }));
    let both = failed_start_error(invalid("not ready".into()), Err(invalid("still running".into())));
    assert_eq!(both.message(), "not ready; failed to clean up the started process: still running");
    assert!(both.related_port().is_none());
}

#[test]
fn only_a_tcp_port_opens_in_a_browser() {
    assert_eq!(browser_url(5173, "tcp").unwrap(), "http://127.0.0.1:5173");
    assert_eq!(browser_url(80, "TCP").unwrap(), "http://127.0.0.1:80");
    assert_eq!(browser_url(53, "udp").unwrap_err().message(), "Only TCP ports can be opened in a browser");
}

#[test]
fn a_scan_visits_each_directory_once_in_breadth_first_name_order() {
    let mut scan = RootScan::new("/root".into());
    let first = scan.next().expect("the root");
    assert_eq!((first.path.as_str(), first.depth), ("/root", 0));
    assert_eq!(scan.resolve("/root".into(), true, false), Admission::Visit);
    scan.descend(&vec!["/root/b".into(), "/root/a".into()], 0);

    let a = scan.next().expect("a");
    assert_eq!((a.path.as_str(), a.depth), ("/root/a", 1));
    assert_eq!(scan.resolve("/root/a".into(), true, false), Admission::Visit);
    let b = scan.next().expect("b");
    assert_eq!(b.path, "/root/b");
    assert_eq!(scan.resolve("/root/a".into(), true, false), Admission::Skip, "seen before");
    assert_eq!(scan.resolve("/elsewhere".into(), false, false), Admission::Skip, "outside the root");
    assert_eq!(scan.resolve("/root/c".into(), true, true), Admission::Skip, "inside a workspace");
    assert_eq!(scan.resolve("/root/c".into(), true, false), Admission::Skip, "already seen as a workspace member");
    assert!(scan.next().is_none());
}

#[test]
fn a_scan_descends_no_deeper_than_its_limit_and_stops_at_its_project_limit() {
    let mut scan = RootScan::new("/root".into());
    scan.next();
    scan.descend(&vec!["/root/deep".into()], MAX_SCAN_DEPTH);
    assert!(scan.next().is_none());
    scan.descend(&vec!["/root/x".into()], MAX_SCAN_DEPTH - 1);
    assert_eq!(scan.next().expect("one level deeper").depth, MAX_SCAN_DEPTH);

    let mut stops = 0;
    for _ in 0..MAX_DISCOVERED_PROJECTS {
        if scan.record_project() {
            stops += 1;
        }
    }
    assert_eq!(stops, 1, "the last project allowed stops the scan");
}

#[test]
fn the_directory_past_the_scan_limit_stops_the_scan() {
    let mut scan = RootScan::new("/root".into());
    for index in 0..MAX_SCANNED_DIRECTORIES {
        assert_eq!(scan.resolve(format!("/root/{index:05}"), true, false), Admission::Visit);
    }
    assert_eq!(scan.resolve("/root/one-more".into(), true, false), Admission::Stop);
}

fn listener(port: u16, pid: u32) -> PortEntry {
    PortEntry { state: ConnectionState::Listen, port, protocol: "TCP".into(), pid: Some(pid), process_name: None }
}

fn expected(port: u16) -> ExpectedPort {
    ExpectedPort { id: format!("port-{port}"), profile_id: "profile".into(), port, protocol: "tcp".into() }
}

#[test]
fn a_profile_is_ready_only_when_its_own_tree_listens_on_every_expected_port() {
    let ports = vec![expected(3000), expected(5173)];
    let owned = vec![10, 11];
    assert!(ports_ready(&ports, &vec![listener(3000, 10), listener(5173, 11)], &owned));
    assert!(!ports_ready(&ports, &vec![listener(3000, 10)], &owned), "one port is not open yet");
    assert!(!ports_ready(&ports, &vec![listener(3000, 10), listener(5173, 99)], &owned), "someone else holds it");
    let mut not_listening = listener(5173, 11);
    not_listening.state = ConnectionState::Other;
    assert!(!ports_ready(&ports, &vec![listener(3000, 10), not_listening], &owned));
    assert!(ports_ready(&Vec::new(), &Vec::new(), &Vec::new()), "nothing expected is nothing missing");
}

#[test]
fn a_starting_profile_is_awaited_until_ready_exited_or_late() {
    assert!(matches!(ready_poll(false, true, false, false), ReadyPoll::Ready));
    match ready_poll(false, false, false, false) {
        ReadyPoll::Refuse(error) => assert_eq!(error.message(), "Profile exited before it became ready"),
        other => panic!("{other:?}"),
    }
    assert!(matches!(ready_poll(true, true, false, false), ReadyPoll::Wait));
    assert!(matches!(ready_poll(true, true, true, false), ReadyPoll::Ready));
    match ready_poll(true, false, true, false) {
        ReadyPoll::Refuse(error) => assert_eq!(error.message(), "Profile exited before expected ports became ready"),
        other => panic!("{other:?}"),
    }
    match ready_poll(true, true, true, true) {
        ReadyPoll::Refuse(error) => assert_eq!(error.message(), "Timed out waiting for expected ports"),
        other => panic!("{other:?}"),
    }
}
