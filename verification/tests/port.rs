use server_starter::bind::{bind_all, socket_plan, BindRequest, Endpoint, Occupant, Transport};
use server_starter::port::{
    parse_path, parse_port, plan_port, resolve, split_fd, Kind, PortPlan, Resolution,
    SocketAddress,
};

const LOOPBACK_V6: SocketAddress = SocketAddress::V6 { ip: 1, port: 9000, flowinfo: 0, scope_id: 0 };

fn unasked() -> Resolution {
    Resolution::Failed("not looked up".to_string())
}

fn found(list: &[SocketAddress]) -> Resolution {
    Resolution::Addresses(list.to_vec())
}

#[test]
fn bare_port_binds_ipv4_any() {
    let s = parse_port("8080", &unasked()).unwrap();
    assert_eq!(s.key, "0.0.0.0:8080");
    assert!(matches!(s.kind, Kind::Tcp(_)));
    assert!(s.want_fd.is_none());
}

#[test]
fn fd_override_is_split_off() {
    let s = parse_port("8080=7", &unasked()).unwrap();
    assert_eq!(s.key, "0.0.0.0:8080");
    assert_eq!(s.want_fd, Some(7));
}

#[test]
fn ipv6_host_port() {
    let s = parse_port("[::1]:9000", &found(&[LOOPBACK_V6])).unwrap();
    assert_eq!(s.key, "[::1]:9000");
    assert!(matches!(s.kind, Kind::Tcp(a) if a.is_ipv6()));
}

#[test]
fn udp_bare_port() {
    let s = parse_port("u5353", &unasked()).unwrap();
    assert_eq!(s.key, "0.0.0.0:5353");
    assert!(matches!(s.kind, Kind::Udp(_)));
}

#[test]
fn path_spec() {
    let s = parse_path("/tmp/app.sock=9").unwrap();
    assert_eq!(s.key, "/tmp/app.sock");
    assert_eq!(s.want_fd, Some(9));
    assert!(matches!(s.kind, Kind::Unix(_)));
}

#[test]
fn descriptors_are_split_off_at_the_last_equals_sign() {
    assert_eq!(split_fd("a=b=3"), Ok(("a=b", Some(3))));
    assert_eq!(split_fd("a=b"), Ok(("a=b", None)));
    assert_eq!(split_fd("a="), Ok(("a=", None)));
    assert_eq!(split_fd("a=+3"), Ok(("a=+3", None)));
    assert_eq!(split_fd("=3"), Ok(("", Some(3))));
    assert_eq!(split_fd("a=2147483647"), Ok(("a", Some(2147483647))));
    assert_eq!(split_fd("a=2147483648"), Err("invalid fd \"2147483648\"".to_string()));
}

#[test]
fn ports_are_bounded() {
    let s = parse_port("65535", &unasked()).unwrap();
    assert!(matches!(s.kind, Kind::Tcp(SocketAddress::V4 { ip: 0, port: 65535 })));
    assert_eq!(parse_port("65536", &unasked()).unwrap_err(), "invalid port \"65536\"");
    assert_eq!(parse_port("u65536", &unasked()).unwrap_err(), "invalid udp port \"65536\"");
    assert_eq!(parse_port("1=99999999999", &unasked()).unwrap_err(), "invalid fd \"99999999999\"");
    // Leading zeros are dropped from the key.
    assert_eq!(parse_port(" 0080 ", &unasked()).unwrap().key, "0.0.0.0:80");
}

#[test]
fn host_names_are_looked_up() {
    assert!(matches!(plan_port(" upstream:80 =4"), Ok(PortPlan::Lookup(h, Some(4))) if h == "upstream:80"));
    assert!(matches!(plan_port("u"), Ok(PortPlan::Lookup(h, None)) if h == "u"));
    assert!(matches!(plan_port(""), Ok(PortPlan::Lookup(h, None)) if h.is_empty()));
    let v4 = SocketAddress::V4 { ip: 0x7f000001, port: 80 };
    assert_eq!(resolve("h:80", &found(&[v4, LOOPBACK_V6])), Ok(v4));
    assert_eq!(
        resolve("h:80", &found(&[])),
        Err("no address resolved for \"h:80\"".to_string())
    );
    assert_eq!(
        parse_port("h", &Resolution::Failed("bad".to_string())).unwrap_err(),
        "cannot resolve \"h\": bad"
    );
}

#[test]
fn empty_paths_are_refused() {
    assert_eq!(parse_path("").unwrap_err(), "empty path");
    assert_eq!(parse_path("=3").unwrap_err(), "empty path");
    assert_eq!(parse_path(" ").unwrap().key, " ");
    assert_eq!(parse_path("/a=2147483648").unwrap_err(), "invalid fd \"2147483648\"");
}

#[test]
fn sockets_are_bound_in_order() {
    let ports = vec!["localhost:80=9".to_string(), "u53".to_string()];
    let paths = vec!["/tmp/a.sock".to_string()];
    let b = bind_all(ports, paths, 128).unwrap();
    assert!(matches!(b.request(), BindRequest::Resolve(h) if h == "localhost:80"));
    let b = b.resolved(&found(&[LOOPBACK_V6])).unwrap();
    match b.request() {
        BindRequest::Bind(plan) => {
            assert!(matches!(plan.endpoint, Endpoint::Inet(a) if a == LOOPBACK_V6));
            assert_eq!(plan.transport, Transport::Tcp);
            assert!(plan.reuse_address && plan.only_v6 && !plan.remove_stale);
            assert_eq!(plan.backlog, Some(128));
        }
        other => panic!("{:?}", other),
    }
    let b = b.bound(3);
    assert!(matches!(b.request(), BindRequest::Move(3, 9)));
    let b = b.placed().unwrap();
    match b.request() {
        BindRequest::Bind(plan) => {
            assert!(matches!(plan.endpoint, Endpoint::Inet(SocketAddress::V4 { ip: 0, port: 53 })));
            assert_eq!(plan.transport, Transport::Udp);
            assert!(plan.reuse_address && !plan.only_v6);
            assert_eq!(plan.backlog, None);
        }
        other => panic!("{:?}", other),
    }
    let b = b.bound(3);
    assert!(matches!(b.request(), BindRequest::Keep(3)));
    let b = b.placed().unwrap();
    match b.request() {
        BindRequest::Bind(plan) => {
            assert!(matches!(plan.endpoint, Endpoint::Unix(p) if p == "/tmp/a.sock"));
            assert_eq!(plan.transport, Transport::Unix);
            assert!(!plan.reuse_address && plan.remove_stale);
            assert_eq!(plan.backlog, Some(128));
        }
        other => panic!("{:?}", other),
    }
    let b = b.bound(4).placed().unwrap();
    assert!(matches!(b.request(), BindRequest::Finished));
    let listeners = b.into_listeners();
    let listed: Vec<(&str, i32)> = listeners.iter().map(|l| (l.key.as_str(), l.fd)).collect();
    assert_eq!(listed, vec![("localhost:80", 9), ("0.0.0.0:53", 3), ("/tmp/a.sock", 4)]);
}

#[test]
fn binding_faults_name_the_option() {
    let one = |s: &str| vec![s.to_string()];
    assert_eq!(
        bind_all(one("70000"), vec![], 1).unwrap_err(),
        "--port 70000: invalid port \"70000\""
    );
    assert_eq!(bind_all(vec![], one(""), 1).unwrap_err(), "--path : empty path");
    let b = bind_all(one("h:1"), one("=1"), 1).unwrap();
    assert_eq!(
        b.resolved(&found(&[])).unwrap_err(),
        "--port h:1: no address resolved for \"h:1\""
    );
    let b = bind_all(one("1"), one("=1"), 1).unwrap();
    assert_eq!(b.bound(5).placed().unwrap_err(), "--path =1: empty path");
}

#[test]
fn actually_binds_a_tcp_port() {
    // port 0 => ephemeral; just make sure the whole path works.
    let loopback = SocketAddress::V4 { ip: 0x7f000001, port: 0 };
    let b = bind_all(vec!["127.0.0.1:0".to_string()], vec![], 128).unwrap();
    assert!(matches!(b.request(), BindRequest::Resolve(h) if h == "127.0.0.1:0"));
    let b = b.resolved(&found(&[loopback])).unwrap();
    match b.request() {
        BindRequest::Bind(plan) => {
            assert!(matches!(plan.endpoint, Endpoint::Inet(a) if a == loopback));
            assert_eq!(plan.transport, Transport::Tcp);
            assert_eq!(plan.backlog, Some(128));
        }
        other => panic!("{:?}", other),
    }
    let b = b.bound(3);
    assert!(matches!(b.request(), BindRequest::Keep(3)));
    let b = b.placed().unwrap();
    assert!(matches!(b.request(), BindRequest::Finished));
    let listeners = b.into_listeners();
    assert_eq!(listeners.len(), 1);
    assert!(listeners[0].fd >= 0);
}

#[test]
fn only_stale_sockets_are_removed() {
    let unix = socket_plan(&Kind::Unix("/tmp/a.sock".to_string()), 1);
    assert!(unix.clears(Occupant::Socket));
    assert!(!unix.clears(Occupant::Other));
    assert!(!unix.clears(Occupant::Nothing));
    let tcp = socket_plan(&Kind::Tcp(LOOPBACK_V6), 1);
    assert!(!tcp.clears(Occupant::Socket));
}
