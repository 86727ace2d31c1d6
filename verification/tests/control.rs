use nix::sys::signal::Signal;
use server_starter::control::{
    read_pid, restart_completed, ControlError, ControlRequest, ErrorClass, Reply,
};
use server_starter::{restart_server, stop_server, Options};

fn text(s: &str) -> String {
    s.to_string()
}

fn options(pid_file: Option<&str>, status_file: Option<&str>) -> Options {
    let mut o = Options::default();
    o.pid_file = pid_file.map(text);
    o.status_file = status_file.map(text);
    o
}

fn status(s: &str) -> Reply {
    Reply::StatusFile(Some(text(s)))
}

#[test]
fn control_commands_need_their_files() {
    let e = restart_server(&options(None, None)).unwrap_err();
    assert_eq!(e.message(), "--restart requires --pid-file");
    assert_eq!(e.class(), ErrorClass::InvalidInput);
    let e = restart_server(&options(None, Some("s"))).unwrap_err();
    assert_eq!(e.message(), "--restart requires --pid-file");
    let e = restart_server(&options(Some("p"), None)).unwrap_err();
    assert_eq!(e.message(), "--restart requires --status-file");
    assert_eq!(e.class(), ErrorClass::InvalidInput);
    let e = stop_server(&options(None, Some("s"))).unwrap_err();
    assert_eq!(e.message(), "--stop requires --pid-file");
    assert_eq!(e.class(), ErrorClass::InvalidInput);
}

#[test]
fn restart_waits_for_the_new_generation() {
    let mut c = restart_server(&options(Some("p"), Some("s"))).unwrap();
    assert!(matches!(c.request(), ControlRequest::ReadPidFile(p) if p == "p"));
    c.answer(&Reply::PidFile(Ok(text("77\n")))).unwrap();
    assert!(matches!(c.request(), ControlRequest::ReadStatusFile(s) if s == "s"));
    c.answer(&status("3:10\n")).unwrap();
    assert!(matches!(c.request(), ControlRequest::Signal(77, Signal::SIGHUP)));
    c.answer(&Reply::Signalled(Ok(()))).unwrap();
    for seen in ["3:10\n", "", "3:10\n4:11\n", "2:9\n"] {
        assert!(matches!(c.request(), ControlRequest::Sleep(1)));
        c.answer(&Reply::Slept).unwrap();
        assert!(matches!(c.request(), ControlRequest::Probe(77)));
        c.answer(&Reply::Probed(true)).unwrap();
        assert!(matches!(c.request(), ControlRequest::ReadStatusFile(s) if s == "s"));
        c.answer(&status(seen)).unwrap();
    }
    c.answer(&Reply::Slept).unwrap();
    c.answer(&Reply::Probed(true)).unwrap();
    c.answer(&Reply::StatusFile(None)).unwrap();
    c.answer(&Reply::Slept).unwrap();
    c.answer(&Reply::Probed(true)).unwrap();
    c.answer(&status("4:11\n")).unwrap();
    assert!(matches!(c.request(), ControlRequest::Finish));
}

#[test]
fn restart_notices_a_dead_superdaemon() {
    let mut c = restart_server(&options(Some("p"), Some("s"))).unwrap();
    c.answer(&Reply::PidFile(Ok(text("77")))).unwrap();
    c.answer(&Reply::StatusFile(None)).unwrap();
    c.answer(&Reply::Signalled(Ok(()))).unwrap();
    c.answer(&Reply::Slept).unwrap();
    let e = c.answer(&Reply::Probed(false)).unwrap_err();
    assert_eq!(e.message(), "the superdaemon exited without completing the restart");
    assert_eq!(e.class(), ErrorClass::Other);
}

#[test]
fn stop_sends_one_signal() {
    let mut c = stop_server(&options(Some("p"), Some("s"))).unwrap();
    assert!(matches!(c.request(), ControlRequest::ReadPidFile(p) if p == "p"));
    c.answer(&Reply::PidFile(Ok(text("77\n")))).unwrap();
    assert!(matches!(c.request(), ControlRequest::Signal(77, Signal::SIGTERM)));
    c.answer(&Reply::Signalled(Ok(()))).unwrap();
    assert!(matches!(c.request(), ControlRequest::Finish));
}

#[test]
fn failed_signal_is_reported() {
    let mut c = stop_server(&options(Some("p"), None)).unwrap();
    c.answer(&Reply::PidFile(Ok(text("-5")))).unwrap();
    let e = c.answer(&Reply::Signalled(Err(text("ESRCH: No such process")))).unwrap_err();
    assert_eq!(e.message(), "failed to signal -5: ESRCH: No such process");
    assert_eq!(e.class(), ErrorClass::Other);
}

#[test]
fn pid_file_faults() {
    assert_eq!(read_pid("p", &Ok(text(" 5\n"))).unwrap(), 5);
    let e = read_pid("p", &Ok(text("five"))).unwrap_err();
    assert!(matches!(e, ControlError::NotAPid));
    assert_eq!(e.message(), "pid file does not contain a pid");
    assert_eq!(e.class(), ErrorClass::InvalidData);
    let e = read_pid("/run/\"p\"", &Err(text("gone"))).unwrap_err();
    assert_eq!(e.message(), "cannot read pid file \"/run/\\\"p\\\"\": gone");
    assert_eq!(e.class(), ErrorClass::Read);
}

#[test]
fn completion_of_a_restart() {
    assert!(restart_completed(&vec![(5, 1)], 4));
    assert!(restart_completed(&vec![(5, 1), (5, 2)], 4));
    assert!(!restart_completed(&vec![(5, 1)], 5));
    assert!(!restart_completed(&vec![(5, 1), (6, 2)], 4));
    assert!(!restart_completed(&vec![], 0));
}
