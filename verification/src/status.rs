//! The status file, which lists the running worker generations, and the pid file.
use crate::number::{
    decimal, int_text, is_digit, law_other_texts_are_no_numbers, lemma_decimal_is_read_back,
    lemma_i32_round_trip, lemma_unsigned_round_trip, parse_i32, parse_u64, push_i32, push_u64,
    read_i32, read_unsigned,
};
use crate::text::{
    cut_first, is_white, joined, law_trimming, lemma_cut_first_of_join, lemma_first_index,
    lemma_lines_of_line, lemma_trim_keeps, lines, lines_of, pieces, slice_texts, split, split_once,
    trim, trim_end, trimmed,
};
use vstd::prelude::*;
use vstd::string::StringExecFns;

verus! {

/// A generation and a pid as a line of the status file, without the line end.
pub open spec fn status_line(entry: (u64, i32)) -> Seq<char> {
    decimal(entry.0 as nat) + seq![':'] + int_text(entry.1 as int)
}

/// The contents of a status file that lists `entries`.
pub open spec fn status_text(entries: Seq<(u64, i32)>) -> Seq<char>
    decreases entries.len(),
{
    if entries.len() == 0 {
        Seq::empty()
    } else {
        status_line(entries[0]) + seq!['\n'] + status_text(entries.skip(1))
    }
}

proof fn lemma_status_push(entries: Seq<(u64, i32)>, entry: (u64, i32))
    ensures
        status_text(entries.push(entry)) == status_text(entries) + status_line(entry)
            + seq!['\n'],
    decreases entries.len(),
{
    let more = entries.push(entry);
    if entries.len() == 0 {
        assert(more.skip(1) =~= Seq::<(u64, i32)>::empty());
        assert(status_text(more.skip(1)) =~= Seq::<char>::empty());
    } else {
        assert(more.skip(1) =~= entries.skip(1).push(entry));
        lemma_status_push(entries.skip(1), entry);
    }
    assert(status_text(more) =~= status_text(entries) + status_line(entry) + seq!['\n']);
}

/// Writes the contents of a status file that lists `entries`.
pub fn render_status(entries: &Vec<(u64, i32)>) -> (r: String)
    ensures
        r@ == status_text(entries@),
{
    let mut body = String::new();
    let mut i: usize = 0;
    assert(body@ =~= status_text(entries@.take(0)));
    while i < entries.len()
        invariant
            i <= entries.len(),
            body@ == status_text(entries@.take(i as int)),
        decreases entries.len() - i,
    {
        proof {
            lemma_status_push(entries@.take(i as int), entries@[i as int]);
            assert(entries@.take(i + 1) =~= entries@.take(i as int).push(entries@[i as int]));
        }
        let ghost earlier = body@;
        push_u64(&mut body, entries[i].0);
        body.push(':');
        push_i32(&mut body, entries[i].1);
        body.push('\n');
        assert(body@ =~= earlier + status_line(entries@[i as int]) + seq!['\n']);
        i = i + 1;
    }
    assert(entries@.take(i as int) =~= entries@);
    body
}

/// The generation and the pid that a line of the status file names.
pub open spec fn line_entry(line: Seq<char>) -> Option<(u64, i32)> {
    match cut_first(line, ':') {
        Some((generation, pid)) => match (
            read_unsigned(trimmed(generation), u64::MAX as nat),
            read_i32(trimmed(pid)),
        ) {
            (Some(g), Some(p)) => Some((g as u64, p as i32)),
            _ => None,
        },
        None => None,
    }
}

/// What the lines name, leaving out those that name nothing.
pub open spec fn line_entries(all: Seq<Seq<char>>) -> Seq<(u64, i32)>
    decreases all.len(),
{
    if all.len() == 0 {
        Seq::empty()
    } else {
        let before = line_entries(all.drop_last());
        match line_entry(all.last()) {
            Some(entry) => before.push(entry),
            None => before,
        }
    }
}

/// What a status file lists, where `contents` is what could be read of it.
pub open spec fn status_read(contents: Option<Seq<char>>) -> Seq<(u64, i32)> {
    match contents {
        Some(text) => line_entries(lines_of(text)),
        None => Seq::empty(),
    }
}

/// The text that was read, if any was.
pub open spec fn text_read(contents: Option<&str>) -> Option<Seq<char>> {
    match contents {
        Some(text) => Some(text@),
        None => None,
    }
}

fn parse_line(line: &str) -> (r: Option<(u64, i32)>)
    ensures
        r == line_entry(line@),
{
    match split_once(line, ':') {
        Some((generation, pid)) => match (parse_u64(trim(generation)), parse_i32(trim(pid))) {
            (Some(g), Some(p)) => Some((g, p)),
            _ => None,
        },
        None => None,
    }
}

/// Parses the status file into `(generation, pid)` pairs; a file that could not be read lists
/// nothing.
pub fn read_status(contents: Option<&str>) -> (r: Vec<(u64, i32)>)
    ensures
        r@ == status_read(text_read(contents)),
{
    let mut entries: Vec<(u64, i32)> = Vec::new();
    match contents {
        Some(text) => {
            let all = lines(text);
            let ghost texts = slice_texts(all@);
            let mut i: usize = 0;
            assert(entries@ =~= line_entries(texts.take(0)));
            while i < all.len()
                invariant
                    i <= all.len(),
                    texts == slice_texts(all@),
                    entries@ == line_entries(texts.take(i as int)),
                decreases all.len() - i,
            {
                proof {
                    assert(texts.take(i + 1).drop_last() =~= texts.take(i as int));
                    assert(texts.take(i + 1).last() == all@[i as int]@);
                }
                if let Some(entry) = parse_line(all[i]) {
                    entries.push(entry);
                }
                i = i + 1;
            }
            assert(texts.take(i as int) =~= texts);
        },
        None => {},
    }
    entries
}

/// The generation that a line of the status file starts with.
pub open spec fn line_generation(line: Seq<char>) -> Option<u64> {
    match read_unsigned(trimmed(pieces(line, ':')[0]), u64::MAX as nat) {
        Some(g) => Some(g as u64),
        None => None,
    }
}

/// The greatest generation that the lines start with, or 0.
pub open spec fn greatest_generation(all: Seq<Seq<char>>) -> u64
    decreases all.len(),
{
    if all.len() == 0 {
        0
    } else {
        let before = greatest_generation(all.drop_last());
        match line_generation(all.last()) {
            Some(g) => if g > before {
                g
            } else {
                before
            },
            None => before,
        }
    }
}

/// The greatest generation that a status file lists, where `contents` is what could be read of it.
pub open spec fn generation_read(contents: Option<Seq<char>>) -> u64 {
    match contents {
        Some(text) => greatest_generation(lines_of(text)),
        None => 0,
    }
}

/// Returns the maximum generation currently listed in the status file, or 0.
pub fn max_generation(contents: Option<&str>) -> (r: u64)
    ensures
        r == generation_read(text_read(contents)),
{
    let mut newest: u64 = 0;
    match contents {
        Some(text) => {
            let all = lines(text);
            let ghost texts = slice_texts(all@);
            let mut i: usize = 0;
            assert(texts.take(0) =~= Seq::<Seq<char>>::empty());
            while i < all.len()
                invariant
                    i <= all.len(),
                    texts == slice_texts(all@),
                    newest == greatest_generation(texts.take(i as int)),
                decreases all.len() - i,
            {
                proof {
                    assert(texts.take(i + 1).drop_last() =~= texts.take(i as int));
                    assert(texts.take(i + 1).last() == all@[i as int]@);
                }
                let parts = split(all[i], ':');
                assert(slice_texts(parts@).len() == parts.len());
                assert(slice_texts(parts@)[0] == parts@[0]@);
                if let Some(g) = parse_u64(trim(parts[0])) {
                    if g > newest {
                        newest = g;
                    }
                }
                i = i + 1;
            }
            assert(texts.take(i as int) =~= texts);
        },
        None => {},
    }
    newest
}

proof fn lemma_digits_are_not_white(c: char)
    requires
        is_digit(c) || c == '-',
    ensures
        !is_white(c),
        c != ':',
        c != '\n',
        c != '\r',
{
}

proof fn lemma_generation_text(g: u64)
    ensures
        read_unsigned(trimmed(decimal(g as nat)), u64::MAX as nat) == Some(g as nat),
        !decimal(g as nat).contains(':'),
        !decimal(g as nat).contains('\n'),
        decimal(g as nat).len() > 0,
{
    let s = decimal(g as nat);
    lemma_decimal_is_read_back(g as nat);
    lemma_unsigned_round_trip(g as nat, u64::MAX as nat);
    assert(is_digit(s[0]) && is_digit(s[s.len() - 1]));
    lemma_trim_keeps(s);
}

proof fn lemma_pid_text(p: i32)
    ensures
        read_i32(trimmed(int_text(p as int))) == Some(p as int),
        !int_text(p as int).contains('\n'),
        int_text(p as int).len() > 0,
        int_text(p as int).last() != '\r',
        !is_white(int_text(p as int)[0]),
        !is_white(int_text(p as int).last()),
{
    let s = int_text(p as int);
    lemma_i32_round_trip(p);
    lemma_decimal_is_read_back(p as nat);
    lemma_decimal_is_read_back((-p) as nat);
    assert forall|i: int| 0 <= i < s.len() implies #[trigger] s[i] == '-' || is_digit(s[i]) by {
        if p < 0 {
            if i > 0 {
                assert(s[i] == decimal((-p) as nat)[i - 1]);
            }
        } else {
            assert(s[i] == decimal(p as nat)[i]);
        }
    }
    assert(s[0] == '-' || is_digit(s[0]));
    assert(s[s.len() - 1] == '-' || is_digit(s[s.len() - 1]));
    lemma_digits_are_not_white(s[0]);
    lemma_digits_are_not_white(s.last());
    lemma_trim_keeps(s);
}

proof fn lemma_line_is_read_back(entry: (u64, i32))
    ensures
        line_entry(status_line(entry)) == Some(entry),
        !status_line(entry).contains('\n'),
        status_line(entry).len() > 0,
        status_line(entry).last() != '\r',
{
    let generation = decimal(entry.0 as nat);
    let pid = int_text(entry.1 as int);
    lemma_generation_text(entry.0);
    lemma_pid_text(entry.1);
    lemma_cut_first_of_join(generation, ':', pid);
    let line = status_line(entry);
    if line.contains('\n') {
        let i = choose|i: int| 0 <= i < line.len() && line[i] == '\n';
        if i < generation.len() {
            assert(generation[i] == '\n');
        } else if i > generation.len() {
            assert(pid[i - generation.len() - 1] == '\n');
        }
    }
    assert(line.last() == pid.last());
}

proof fn lemma_line_entries_front(line: Seq<char>, rest: Seq<Seq<char>>)
    requires
        line_entry(line) is Some,
    ensures
        line_entries(seq![line] + rest) == seq![line_entry(line)->Some_0] + line_entries(rest),
    decreases rest.len(),
{
    let all = seq![line] + rest;
    let first = line_entry(line)->Some_0;
    if rest.len() == 0 {
        assert(all.drop_last() =~= Seq::<Seq<char>>::empty());
        assert(line_entries(all.drop_last()) =~= Seq::<(u64, i32)>::empty());
        assert(line_entries(all) =~= seq![first] + line_entries(rest));
    } else {
        assert(all.drop_last() =~= seq![line] + rest.drop_last());
        assert(all.last() == rest.last());
        lemma_line_entries_front(line, rest.drop_last());
        assert(line_entries(all) =~= seq![first] + line_entries(rest));
    }
}

/// What is written to the status file is read back from it.
pub proof fn law_status_is_read_back(entries: Seq<(u64, i32)>)
    ensures
        status_read(Some(status_text(entries))) == entries,
    decreases entries.len(),
{
    if entries.len() == 0 {
        assert(lines_of(Seq::<char>::empty()) =~= Seq::<Seq<char>>::empty());
        assert(line_entries(Seq::<Seq<char>>::empty()) =~= entries);
    } else {
        let line = status_line(entries[0]);
        let rest = status_text(entries.skip(1));
        law_status_is_read_back(entries.skip(1));
        lemma_line_is_read_back(entries[0]);
        lemma_lines_of_line(line, rest);
        lemma_line_entries_front(line, lines_of(rest));
        assert(seq![entries[0]] + entries.skip(1) =~= entries);
    }
}

proof fn lemma_entry_generation(line: Seq<char>)
    ensures
        line_entry(line) matches Some(entry) ==> line_generation(line) == Some(entry.0),
{
    lemma_first_index(line, ':');
    if line_entry(line) is Some {
        let (generation, pid) = cut_first(line, ':')->Some_0;
        assert(pieces(line, ':')[0] =~= generation);
    }
}

proof fn lemma_entries_are_not_newer(all: Seq<Seq<char>>)
    ensures
        forall|i: int|
            0 <= i < line_entries(all).len() ==> (#[trigger] line_entries(all)[i]).0
                <= greatest_generation(all),
    decreases all.len(),
{
    if all.len() > 0 {
        lemma_entries_are_not_newer(all.drop_last());
        lemma_entry_generation(all.last());
        let before = line_entries(all.drop_last());
        assert forall|i: int| 0 <= i < line_entries(all).len() implies (
        #[trigger] line_entries(all)[i]).0 <= greatest_generation(all) by {
            if i < before.len() {
                assert(before[i] == line_entries(all)[i]);
            }
        }
    }
}

/// No generation that a status file lists is newer than the maximum generation of that file.
pub proof fn law_max_generation_bounds_the_status(contents: Option<Seq<char>>)
    ensures
        forall|i: int|
            0 <= i < status_read(contents).len() ==> (#[trigger] status_read(contents)[i]).0
                <= generation_read(contents),
{
    if let Some(text) = contents {
        lemma_entries_are_not_newer(lines_of(text));
    }
}

proof fn lemma_greatest_front(line: Seq<char>, rest: Seq<Seq<char>>, g: u64)
    requires
        line_generation(line) == Some(g),
    ensures
        greatest_generation(seq![line] + rest) == if g > greatest_generation(rest) {
            g
        } else {
            greatest_generation(rest)
        },
    decreases rest.len(),
{
    let all = seq![line] + rest;
    if rest.len() == 0 {
        assert(all.drop_last() =~= Seq::<Seq<char>>::empty());
        assert(greatest_generation(all.drop_last()) == 0);
    } else {
        assert(all.drop_last() =~= seq![line] + rest.drop_last());
        assert(all.last() == rest.last());
        lemma_greatest_front(line, rest.drop_last(), g);
    }
}

/// The maximum generation of a status file that was written for `entries` is that of one of them,
/// and none of them is newer.
pub proof fn law_max_generation_of_written_status(entries: Seq<(u64, i32)>)
    requires
        entries.len() > 0,
    ensures
        forall|i: int|
            0 <= i < entries.len() ==> (#[trigger] entries[i]).0 <= generation_read(
                Some(status_text(entries)),
            ),
        exists|i: int|
            0 <= i < entries.len() && (#[trigger] entries[i]).0 == generation_read(
                Some(status_text(entries)),
            ),
    decreases entries.len(),
{
    law_status_is_read_back(entries);
    law_max_generation_bounds_the_status(Some(status_text(entries)));
    let line = status_line(entries[0]);
    let rest = status_text(entries.skip(1));
    lemma_line_is_read_back(entries[0]);
    lemma_entry_generation(line);
    lemma_lines_of_line(line, rest);
    lemma_greatest_front(line, lines_of(rest), entries[0].0);
    let newest = generation_read(Some(status_text(entries)));
    if entries.len() == 1 {
        assert(entries.skip(1) =~= Seq::<(u64, i32)>::empty());
        assert(lines_of(rest) =~= Seq::<Seq<char>>::empty());
        assert(greatest_generation(lines_of(rest)) == 0);
        assert(entries[0].0 == newest);
    } else {
        law_max_generation_of_written_status(entries.skip(1));
        let i = choose|i: int|
            0 <= i < entries.skip(1).len() && (#[trigger] entries.skip(1)[i]).0
                == generation_read(Some(rest));
        assert(entries[i + 1] == entries.skip(1)[i]);
        assert(entries[0].0 == newest || entries[i + 1].0 == newest);
    }
}

/// Where the status file is written before it takes the place of `path`, by the process `pid`.
pub open spec fn temporary(path: Seq<char>, pid: nat) -> Seq<char> {
    path + "."@ + decimal(pid)
}

/// The status file is never written in its own place, two processes never write it in the same
/// place, and each writes it beside its place, under a longer name.
pub proof fn law_temporary_paths_differ(path: Seq<char>, pid: nat, other: nat)
    ensures
        temporary(path, pid) != path,
        path.is_prefix_of(temporary(path, pid)),
        pid != other ==> temporary(path, pid) != temporary(path, other),
        !temporary(path, pid).skip(path.len() as int).contains('/'),
{
    reveal_strlit(".");
    let t = temporary(path, pid);
    let tail = t.skip(path.len() as int);
    lemma_decimal_is_read_back(pid);
    lemma_decimal_is_read_back(other);
    assert(t.len() > path.len());
    assert(t.take(path.len() as int) =~= path);
    let at = path.len() as int + 1;
    assert(t.skip(at) =~= decimal(pid));
    assert(temporary(path, other).skip(at) =~= decimal(other));
    if tail.contains('/') {
        let i = choose|i: int| 0 <= i < tail.len() && tail[i] == '/';
        if i > 0 {
            assert(tail[i] == decimal(pid)[i - 1]);
        }
    }
}

/// Where the status file is written before it takes the place of `path`, by the process `pid`.
pub fn temporary_path(path: &str, pid: u32) -> (r: String)
    ensures
        r@ == path@ + "."@ + decimal(pid as nat),
        r@ == temporary(path@, pid as nat),
{
    let mut r = joined(path, ".");
    push_u64(&mut r, pid as u64);
    r
}

/// The contents of the pid file of the process `pid`.
pub open spec fn pid_text(pid: nat) -> Seq<char> {
    decimal(pid) + seq!['\n']
}

/// Writes the contents of the pid file of the process `pid`.
pub fn render_pid(pid: u32) -> (r: String)
    ensures
        r@ == pid_text(pid as nat),
{
    let mut r = String::new();
    push_u64(&mut r, pid as u64);
    r.push('\n');
    assert(r@ =~= pid_text(pid as nat));
    r
}

/// The pid that the contents of a pid file name.
pub open spec fn pid_read(contents: Seq<char>) -> Option<i32> {
    match read_i32(trimmed(contents)) {
        Some(pid) => Some(pid as i32),
        None => None,
    }
}

/// The pid that the contents of a pid file name.
pub fn parse_pid(contents: &str) -> (r: Option<i32>)
    ensures
        r == pid_read(contents@),
{
    parse_i32(trim(contents))
}

/// The pid that is written to the pid file is read back from it. (A pid is never negative, and
/// never greater than what fits an `i32`.)
pub proof fn law_pid_is_read_back(pid: nat)
    requires
        pid <= i32::MAX,
    ensures
        pid_read(pid_text(pid)) == Some(pid as i32),
{
    let s = pid_text(pid);
    lemma_decimal_is_read_back(pid);
    lemma_i32_round_trip(pid as i32);
    assert(is_digit(decimal(pid)[0]));
    assert(s[0] == decimal(pid)[0]);
    assert(s.drop_last() =~= decimal(pid));
    assert(s.last() == '\n');
    assert(is_digit(decimal(pid)[decimal(pid).len() - 1]));
    assert(trim_end(decimal(pid)) == decimal(pid));
    assert(trimmed(s) == decimal(pid));
}

/// One more worker is put in a line of its own: its generation, a `:` and its pid.
pub proof fn law_status_format(entries: Seq<(u64, i32)>, generation: u64, pid: i32)
    ensures
        status_text(Seq::empty()) == Seq::<char>::empty(),
        status_text(entries.push((generation, pid))) == status_text(entries) + decimal(
            generation as nat,
        ) + seq![':'] + int_text(pid as int) + seq!['\n'],
{
    lemma_status_push(entries, (generation, pid));
    assert(status_text(entries) + status_line((generation, pid)) + seq!['\n'] =~= status_text(
        entries,
    ) + decimal(generation as nat) + seq![':'] + int_text(pid as int) + seq!['\n']);
}

/// White space around a generation and a pid is of no account.
pub proof fn law_status_lines_are_trimmed(
    a: Seq<char>,
    b: Seq<char>,
    c: Seq<char>,
    d: Seq<char>,
    generation: u64,
    pid: i32,
)
    requires
        forall|i: int| 0 <= i < a.len() ==> is_white(#[trigger] a[i]),
        forall|i: int| 0 <= i < b.len() ==> is_white(#[trigger] b[i]),
        forall|i: int| 0 <= i < c.len() ==> is_white(#[trigger] c[i]),
        forall|i: int| 0 <= i < d.len() ==> is_white(#[trigger] d[i]),
    ensures
        line_entry(
            a + decimal(generation as nat) + b + seq![':'] + (c + int_text(pid as int) + d),
        ) == Some((generation, pid)),
        pid_read(c + int_text(pid as int) + d) == Some(pid),
{
    let g = decimal(generation as nat);
    let p = int_text(pid as int);
    lemma_generation_text(generation);
    lemma_pid_text(pid);
    lemma_decimal_is_read_back(generation as nat);
    lemma_unsigned_round_trip(generation as nat, u64::MAX as nat);
    lemma_i32_round_trip(pid);
    assert(is_digit(g[0]) && is_digit(g[g.len() - 1]));
    law_trimming(a, g, b);
    law_trimming(c, p, d);
    let left = a + g + b;
    if left.contains(':') {
        let i = choose|i: int| 0 <= i < left.len() && left[i] == ':';
        if i < a.len() {
            assert(is_white(a[i]));
        } else if i < a.len() + g.len() {
            assert(g[i - a.len()] == ':');
        } else {
            assert(is_white(b[i - a.len() - g.len()]));
        }
    }
    lemma_cut_first_of_join(left, ':', c + p + d);
}

proof fn lemma_line_entries_of_sum(a: Seq<Seq<char>>, b: Seq<Seq<char>>)
    ensures
        line_entries(a + b) == line_entries(a) + line_entries(b),
    decreases b.len(),
{
    if b.len() == 0 {
        assert(a + b =~= a);
        assert(line_entries(a) + line_entries(b) =~= line_entries(a));
    } else {
        assert((a + b).drop_last() =~= a + b.drop_last());
        assert((a + b).last() == b.last());
        lemma_line_entries_of_sum(a, b.drop_last());
        assert(line_entries(a + b) =~= line_entries(a) + line_entries(b));
    }
}

proof fn lemma_entries_before(entries: Seq<(u64, i32)>, rest: Seq<char>)
    ensures
        status_read(Some(status_text(entries) + rest)) == entries + status_read(Some(rest)),
    decreases entries.len(),
{
    if entries.len() == 0 {
        assert(status_text(entries) + rest =~= rest);
        assert(entries + status_read(Some(rest)) =~= status_read(Some(rest)));
    } else {
        let line = status_line(entries[0]);
        let more = status_text(entries.skip(1)) + rest;
        lemma_entries_before(entries.skip(1), rest);
        lemma_line_is_read_back(entries[0]);
        lemma_lines_of_line(line, more);
        lemma_line_entries_front(line, lines_of(more));
        assert(status_text(entries) + rest =~= line + seq!['\n'] + more);
        assert(seq![entries[0]] + (entries.skip(1) + status_read(Some(rest))) =~= entries
            + status_read(Some(rest)));
    }
}

/// A line that names no worker is skipped, and the others are read all the same.
pub proof fn law_other_lines_are_skipped(
    entries: Seq<(u64, i32)>,
    junk: Seq<char>,
    more: Seq<(u64, i32)>,
)
    requires
        !junk.contains('\n'),
        junk.len() == 0 || junk.last() != '\r',
        line_entry(junk) is None,
    ensures
        status_read(Some(status_text(entries) + (junk + seq!['\n'] + status_text(more))))
            == entries + more,
{
    let rest = junk + seq!['\n'] + status_text(more);
    lemma_entries_before(entries, rest);
    lemma_lines_of_line(junk, status_text(more));
    law_status_is_read_back(more);
    lemma_line_entries_of_sum(seq![junk], lines_of(status_text(more)));
    let one = seq![junk];
    assert(one.drop_last() =~= Seq::<Seq<char>>::empty());
    assert(line_entries(one.drop_last()) =~= Seq::<(u64, i32)>::empty());
    assert(line_entries(one) =~= Seq::<(u64, i32)>::empty());
    assert(status_read(Some(rest)) =~= more);
}

/// A line without a `:`, or with something else than numbers around its first `:`, names no worker.
pub proof fn law_lines_that_name_no_worker(a: Seq<char>, b: Seq<char>, i: int)
    requires
        !a.contains(':'),
        a.len() > 0,
        0 <= i < a.len(),
        !('0' <= a[i] <= '9'),
        0 < i < a.len() - 1,
        !is_white(a[0]),
        !is_white(a.last()),
    ensures
        line_entry(a) is None,
        line_entry(a + seq![':'] + b) is None,
{
    lemma_first_index(a, ':');
    lemma_cut_first_of_join(a, ':', b);
    lemma_trim_keeps(a);
    law_other_texts_are_no_numbers(a, i, u64::MAX as nat);
}

/// A status file that is missing or empty lists nothing, and its maximum generation is 0.
pub proof fn law_nothing_is_listed_without_a_file()
    ensures
        status_read(None) == Seq::<(u64, i32)>::empty(),
        generation_read(None) == 0,
        status_read(Some(Seq::empty())) == Seq::<(u64, i32)>::empty(),
        generation_read(Some(Seq::empty())) == 0,
{
    let none = Seq::<Seq<char>>::empty();
    assert(lines_of(Seq::empty()) =~= none);
    assert(line_entries(none) =~= Seq::<(u64, i32)>::empty());
    assert(greatest_generation(none) == 0);
}

} // verus!
