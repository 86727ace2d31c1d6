use server_starter::status::{
    max_generation, parse_pid, read_status, render_pid, render_status, temporary_path,
};

#[test]
fn status_is_read_back() {
    let entries = vec![(1u64, 100i32), (2, 50), (u64::MAX, i32::MIN)];
    let text = render_status(&entries);
    assert_eq!(text, "1:100\n2:50\n18446744073709551615:-2147483648\n");
    assert_eq!(read_status(Some(&text)), entries);
    assert_eq!(max_generation(Some(&text)), u64::MAX);
    assert_eq!(render_status(&vec![]), "");
}

#[test]
fn lines_that_list_nothing_are_skipped() {
    let text = " 3 : 7 \nx:1\n4\n5:\n6:1:2\n\n8:9";
    assert_eq!(read_status(Some(text)), vec![(3, 7), (8, 9)]);
    assert_eq!(read_status(Some("1:2\r\n3:4\r")), vec![(1, 2), (3, 4)]);
    assert_eq!(read_status(None), vec![]);
    assert_eq!(read_status(Some("")), vec![]);
}

#[test]
fn the_maximum_looks_at_the_generation_alone() {
    assert_eq!(max_generation(Some(" 3 : 7 \nx:1\n4\n")), 4);
    assert_eq!(max_generation(Some("9:x\n2:1")), 9);
    assert_eq!(max_generation(Some("18446744073709551616:1\n")), 0);
    assert_eq!(max_generation(Some("")), 0);
    assert_eq!(max_generation(None), 0);
}

#[test]
fn pid_is_read_back() {
    assert_eq!(render_pid(4321), "4321\n");
    assert_eq!(parse_pid(&render_pid(4321)), Some(4321));
    assert_eq!(parse_pid(&render_pid(2147483647)), Some(i32::MAX));
    assert_eq!(parse_pid(&render_pid(2147483648)), None);
    assert_eq!(parse_pid("  -12\t\n"), Some(-12));
    assert_eq!(parse_pid("1 2"), None);
    assert_eq!(parse_pid(""), None);
}

#[test]
fn status_file_is_written_beside_its_place() {
    assert_eq!(temporary_path("/run/app.status", 42), "/run/app.status.42");
}
