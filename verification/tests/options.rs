use nix::sys::signal::Signal;
use server_starter::options::{parse, parse_signal, Keyword};
use server_starter::{parse_args, usage, Action, Options};

fn args(list: &[&str]) -> Vec<String> {
    list.iter().map(|s| s.to_string()).collect()
}

fn refusal(list: &[&str]) -> String {
    parse(&args(list)).unwrap_err()
}

#[test]
fn parses_basic_run() {
    let o = parse(&args(&["--port", "8080", "--", "echo", "hi"])).unwrap();
    assert_eq!(o.action, Action::Run);
    assert_eq!(o.ports, vec!["8080"]);
    assert_eq!(o.command, vec!["echo", "hi"]);
    assert_eq!(o.interval, 1);
}

#[test]
fn inline_values_and_repeats() {
    let o = parse(&args(&[
        "--port=80",
        "--port=443",
        "--path=/tmp/s.sock",
        "--interval=3",
        "--",
        "prog",
    ]))
    .unwrap();
    assert_eq!(o.ports, vec!["80", "443"]);
    assert_eq!(o.paths, vec!["/tmp/s.sock"]);
    assert_eq!(o.interval, 3);
}

#[test]
fn command_without_double_dash() {
    let o = parse(&args(&["--port", "80", "myprog", "--flag", "arg"])).unwrap();
    // Everything from the first bare token on belongs to the worker.
    assert_eq!(o.command, vec!["myprog", "--flag", "arg"]);
}

#[test]
fn restart_and_stop_actions() {
    let o = parse(&args(&["--restart", "--pid-file=/tmp/p", "--status-file=/tmp/s"])).unwrap();
    assert_eq!(o.action, Action::Restart);
    let o = parse(&args(&["--stop", "--pid-file=/tmp/p"])).unwrap();
    assert_eq!(o.action, Action::Stop);
}

#[test]
fn signal_names() {
    let o = parse(&args(&["--signal-on-hup=USR1", "--port=1", "--", "p"])).unwrap();
    assert_eq!(o.signal_on_hup, Signal::SIGUSR1);
    let o = parse(&args(&["--signal-on-term", "SIGKILL", "--port=1", "--", "p"])).unwrap();
    assert_eq!(o.signal_on_term, Signal::SIGKILL);
}

#[test]
fn requires_port_and_command() {
    assert!(parse(&args(&["--", "prog"])).is_err());
    assert!(parse(&args(&["--port=80"])).is_err());
}

#[test]
fn kill_old_delay_defaults() {
    let o = parse(&args(&["--port=1", "--", "p"])).unwrap();
    assert_eq!(o.effective_kill_old_delay(), 0);
    let o = parse(&args(&["--enable-auto-restart", "--port=1", "--", "p"])).unwrap();
    assert_eq!(o.effective_kill_old_delay(), 5);
    let o = parse(&args(&["--kill-old-delay=2", "--port=1", "--", "p"])).unwrap();
    assert_eq!(o.effective_kill_old_delay(), 2);
}

#[test]
fn default_options() {
    let o = Options::default();
    assert_eq!(o.action, Action::Run);
    assert!(o.ports.is_empty() && o.paths.is_empty() && o.command.is_empty());
    assert_eq!(o.interval, 1);
    assert_eq!(o.signal_on_hup, Signal::SIGTERM);
    assert_eq!(o.signal_on_term, Signal::SIGTERM);
    assert_eq!(o.auto_restart_interval, 360);
    assert!(!o.enable_auto_restart && !o.daemonize);
    assert_eq!(o.backlog, None);
    assert_eq!(o.kill_old_delay, None);
    assert!(o.log_file.is_none() && o.pid_file.is_none() && o.dir.is_none());
    assert!(o.envdir.is_none() && o.status_file.is_none());
}

#[test]
fn every_option_is_stored() {
    let o = parse_args(&args(&[
        "--port", "1", "--path", "/p", "--log-file", "/l", "--pid-file=/f", "--dir", "/d",
        "--envdir", "/e", "--status-file", "/s", "--interval", "7", "--backlog", "-5",
        "--auto-restart-interval=9", "--kill-old-delay", "8", "--signal-on-hup", "hup",
        "--signal-on-term=SigInt", "--enable-auto-restart", "--daemonize", "--", "prog", "--port",
    ]))
    .unwrap();
    assert_eq!(o.action, Action::Run);
    assert_eq!(o.ports, vec!["1"]);
    assert_eq!(o.paths, vec!["/p"]);
    assert_eq!(o.log_file.as_deref(), Some("/l"));
    assert_eq!(o.pid_file.as_deref(), Some("/f"));
    assert_eq!(o.dir.as_deref(), Some("/d"));
    assert_eq!(o.envdir.as_deref(), Some("/e"));
    assert_eq!(o.status_file.as_deref(), Some("/s"));
    assert_eq!(o.interval, 7);
    assert_eq!(o.backlog, Some(-5));
    assert_eq!(o.effective_backlog(), -5);
    assert_eq!(o.auto_restart_interval, 9);
    assert_eq!(o.kill_old_delay, Some(8));
    assert_eq!(o.signal_on_hup, Signal::SIGHUP);
    assert_eq!(o.signal_on_term, Signal::SIGINT);
    assert!(o.enable_auto_restart && o.daemonize);
    assert_eq!(o.command, vec!["prog", "--port"]);
}

#[test]
fn help_and_version_need_no_more() {
    assert_eq!(parse(&args(&["--help", "--restart", "--stop"])).unwrap().action, Action::Help);
    assert_eq!(parse(&args(&["--version"])).unwrap().action, Action::Version);
    assert_eq!(parse(&args(&["--help", "--version"])).unwrap().action, Action::Version);
    assert_eq!(parse(&args(&["--help=now"])).unwrap().action, Action::Help);
}

#[test]
fn values_may_hold_anything() {
    let o = parse(&args(&["--port==", "--path", "--help", "--", "p"])).unwrap();
    assert_eq!(o.ports, vec!["="]);
    assert_eq!(o.paths, vec!["--help"]);
    let o = parse(&args(&["--port=", "--port=a=b", "--", "p"])).unwrap();
    assert_eq!(o.ports, vec!["", "a=b"]);
    // A single dash begins the command.
    let o = parse(&args(&["--port=1", "-x"])).unwrap();
    assert_eq!(o.command, vec!["-x"]);
}

#[test]
fn refusals() {
    assert_eq!(refusal(&["--frobnicate=1"]), "unknown option --frobnicate");
    assert_eq!(refusal(&["--port"]), "option --port requires a value");
    assert_eq!(refusal(&["--interval=x"]), "--interval must be an integer");
    assert_eq!(refusal(&["--interval=-1"]), "--interval must be an integer");
    assert_eq!(refusal(&["--interval=18446744073709551616"]), "--interval must be an integer");
    assert_eq!(refusal(&["--backlog=2147483648"]), "--backlog must be an integer");
    assert_eq!(
        refusal(&["--auto-restart-interval="]),
        "--auto-restart-interval must be an integer"
    );
    assert_eq!(refusal(&["--kill-old-delay= 1"]), "--kill-old-delay must be an integer");
    assert_eq!(refusal(&["--signal-on-hup=nope"]), "unknown signal \"nope\"");
    assert_eq!(refusal(&["--signal-on-term=a\"b"]), "unknown signal \"a\\\"b\"");
    assert_eq!(
        refusal(&["--restart", "--stop"]),
        "--restart and --stop are mutually exclusive"
    );
    assert_eq!(refusal(&[]), "no server program specified");
    assert_eq!(refusal(&["p"]), "must specify at least one of --port or --path");
}

#[test]
fn numbers_take_a_plus() {
    let o = parse(&args(&["--interval=+2", "--backlog=+3", "--port=1", "p"])).unwrap();
    assert_eq!(o.interval, 2);
    assert_eq!(o.backlog, Some(3));
}

#[test]
fn signal_prefix_and_case_do_not_matter() {
    for name in ["TERM", "term", "SIGTERM", "SigTerm", "sigterm"] {
        assert_eq!(parse_signal(name).unwrap(), Signal::SIGTERM);
    }
    assert_eq!(parse_signal("USR2").unwrap(), Signal::SIGUSR2);
    assert_eq!(parse_signal("SIGSIGTERM").unwrap_err(), "unknown signal \"SIGSIGTERM\"");
    assert_eq!(parse_signal("").unwrap_err(), "unknown signal \"\"");
}

#[test]
fn backlog_defaults_to_the_system_limit() {
    let o = Options::default();
    assert_eq!(o.effective_backlog(), libc::SOMAXCONN);
    assert_eq!(o.backlog_or(17), 17);
}

#[test]
fn keywords_are_found_by_name() {
    assert_eq!(Keyword::named("--port").unwrap().name(), "--port");
    assert_eq!(Keyword::named("--daemonize").unwrap().name(), "--daemonize");
    assert!(Keyword::named("--por").is_none());
}

#[test]
fn usage_text() {
    assert!(usage().starts_with(
        "start_server (rs-server-starter 0.1.0) - a superdaemon for hot-deploying server programs\n\nUsage:\n    start_server [OPTIONS] -- server-prog server-arg...\n"
    ));
    assert!(usage().contains("\n    --port=(port|host:port|u<port>)[=fd]\n                       TCP (or UDP with the `u' prefix) port to listen on;\n"));
    assert!(usage().contains("\n    --signal-on-term=SIG signal sent to workers on shutdown  (default: TERM).\n"));
    assert!(usage().ends_with("    --version          print the version and exit.\n"));
    assert_eq!(usage().lines().count(), 30);
}

#[test]
fn portable_signals_are_accepted() {
    for name in [
        "HUP", "INT", "QUIT", "ILL", "TRAP", "ABRT", "BUS", "FPE", "KILL", "USR1", "SEGV", "USR2",
        "PIPE", "ALRM", "TERM", "CHLD", "CONT", "STOP", "TSTP", "TTIN", "TTOU", "URG", "XCPU",
        "XFSZ", "VTALRM", "PROF", "WINCH", "SYS",
    ] {
        let found = parse_signal(name).unwrap();
        assert_eq!(found.as_str(), format!("SIG{}", name));
        assert_eq!(parse_signal(found.as_str()).unwrap(), found);
    }
}
