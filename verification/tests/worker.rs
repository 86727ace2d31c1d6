use server_starter::launch::{build_port_env, is_hidden, load_envdir, variable_value, EnvFile};
use server_starter::port::Listener;
use server_starter::worker::{parse_ports, PortMap};
use server_starter::{generation, server_ports, Error, GENERATION_ENV, PORT_ENV};

fn listener(key: &str, fd: i32) -> Listener {
    Listener { key: key.to_string(), fd }
}

fn pairs(map: &PortMap) -> Vec<(&str, i32)> {
    map.entries().iter().map(|e| (e.0.as_str(), e.1)).collect()
}

#[test]
fn parses_multiple_ports() {
    let map = parse_ports("0.0.0.0:8080=3;[::1]:8080=4;/tmp/app.sock=5").unwrap();
    assert_eq!(map.get("0.0.0.0:8080"), Some(&3));
    assert_eq!(map.get("[::1]:8080"), Some(&4));
    assert_eq!(map.get("/tmp/app.sock"), Some(&5));
    assert_eq!(map.len(), 3);
}

#[test]
fn ignores_trailing_semicolon() {
    let map = parse_ports("0.0.0.0:80=3;").unwrap();
    assert_eq!(map.len(), 1);
}

#[test]
fn rejects_malformed() {
    assert!(matches!(parse_ports("noequalshere"), Err(Error::Malformed(_))));
    assert!(matches!(parse_ports("0.0.0.0:80=notanint"), Err(Error::Malformed(_))));
}

#[test]
fn addresses_are_ordered_and_the_last_entry_counts() {
    let map = parse_ports("b=1;a=2;;b=3;\u{e9}=4;a\u{0}=5;=6").unwrap();
    assert_eq!(pairs(&map), vec![("", 6), ("a", 2), ("a\u{0}", 5), ("b", 3), ("\u{e9}", 4)]);
    assert_eq!(map.get("c"), None);
    assert_eq!(parse_ports("").unwrap().len(), 0);
    assert_eq!(pairs(&parse_ports("/a=b=-1").unwrap()), vec![("/a=b", -1)]);
}

#[test]
fn error_messages() {
    assert_eq!(
        server_ports(None).unwrap_err().message(),
        "SERVER_STARTER_PORT is not set; the program is not running under start_server"
    );
    assert_eq!(
        server_ports(Some("a=1;b\\c;d")).unwrap_err().message(),
        "malformed SERVER_STARTER_PORT entry: \"b\\\\c\""
    );
    assert!(matches!(
        server_ports(Some("a=2147483648")),
        Err(Error::Malformed(e)) if e == "a=2147483648"
    ));
    assert_eq!(server_ports(Some("a=1")).unwrap().get("a"), Some(&1));
}

#[test]
fn generations() {
    assert_eq!(generation(None), None);
    assert_eq!(generation(Some("")), None);
    assert_eq!(generation(Some("7")), Some(7));
    assert_eq!(generation(Some("18446744073709551615")), Some(u64::MAX));
    assert_eq!(generation(Some("18446744073709551616")), None);
    assert_eq!(generation(Some(" 7")), None);
}

#[test]
fn environment_names() {
    assert_eq!(PORT_ENV, "SERVER_STARTER_PORT");
    assert_eq!(GENERATION_ENV, "SERVER_STARTER_GENERATION");
}

#[test]
fn sockets_go_through_the_environment() {
    let listeners =
        vec![listener("0.0.0.0:8080", 3), listener("[::1]:8080", 4), listener("/tmp/a=b.sock", 5)];
    let raw = build_port_env(&listeners);
    assert_eq!(raw, "0.0.0.0:8080=3;[::1]:8080=4;/tmp/a=b.sock=5");
    let map = parse_ports(&raw).unwrap();
    for l in &listeners {
        assert_eq!(map.get(&l.key), Some(&l.fd));
    }
    assert_eq!(map.len(), 3);
    assert_eq!(build_port_env(&vec![]), "");
    assert_eq!(build_port_env(&vec![listener("k", i32::MIN)]), "k=-2147483648");
    // A separator inside a key is not recovered.
    assert!(parse_ports(&build_port_env(&vec![listener("/tmp/a;b", 3)])).is_err());
}

#[test]
fn environment_directory() {
    let file = |name: &str, contents: Option<&str>| EnvFile {
        name: name.to_string(),
        contents: contents.map(|c| c.to_string()),
    };
    let files = vec![
        file("A", Some("one\ntwo\n")),
        file(".hidden", Some("x")),
        file("B", None),
        file("C", Some("")),
        file("D", Some("three\r\nfour")),
        file("E", Some("five\r")),
    ];
    let vars = load_envdir(&files);
    let listed: Vec<(&str, &str)> = vars.iter().map(|v| (v.0.as_str(), v.1.as_str())).collect();
    assert_eq!(listed, vec![("A", "one"), ("C", ""), ("D", "three"), ("E", "five\r")]);
    assert!(is_hidden(".x") && !is_hidden("x.") && !is_hidden(""));
    assert_eq!(variable_value("\nx"), "");
}
