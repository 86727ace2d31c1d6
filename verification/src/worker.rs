//! The worker's side of the protocol: recovering the sockets and the generation from the
//! environment.
use crate::number::{
    decimal, law_other_texts_are_no_numbers, lemma_unsigned_round_trip, parse_i32, parse_u64,
    read_i32, read_unsigned,
};
use crate::outside::{quoted, quoted_text};
use crate::status::text_read;
use crate::text::{
    before, cut_last, ends_with, joined, lemma_before_is_strict, lemma_before_is_transitive,
    lemma_ends_with, pieces, place, rsplit_once, slice_texts, split, Place,
};
use vstd::prelude::*;
use vstd::string::StringExecFns;

verus! {

/// Errors returned by the worker-side helpers of this crate.
#[derive(Debug)]
pub enum Error {
    /// `SERVER_STARTER_PORT` is not present: the program was not launched under `start_server`.
    NotUnderServerStarter,
    /// An entry in `SERVER_STARTER_PORT` was malformed.
    Malformed(String),
}

/// What an [`Error`] holds.
pub enum ErrorView {
    NotUnderServerStarter,
    Malformed(Seq<char>),
}

impl View for Error {
    type V = ErrorView;

    open spec fn view(&self) -> ErrorView {
        match *self {
            Error::NotUnderServerStarter => ErrorView::NotUnderServerStarter,
            Error::Malformed(entry) => ErrorView::Malformed(entry@),
        }
    }
}

impl ErrorView {
    /// The message for the user.
    pub open spec fn text(self) -> Seq<char> {
        match self {
            ErrorView::NotUnderServerStarter =>
                "SERVER_STARTER_PORT is not set; the program is not running under start_server"@,
            ErrorView::Malformed(entry) => "malformed SERVER_STARTER_PORT entry: "@ + quoted_text(
                entry,
            ),
        }
    }
}

impl Error {
    /// The message for the user.
    pub fn message(&self) -> (r: String)
        ensures
            r@ == self@.text(),
    {
        match self {
            Error::NotUnderServerStarter => String::from_str(
                "SERVER_STARTER_PORT is not set; the program is not running under start_server",
            ),
            Error::Malformed(entry) => joined(
                "malformed SERVER_STARTER_PORT entry: ",
                quoted(entry.as_str()).as_str(),
            ),
        }
    }
}

/// Whether the addresses of `entries` stand in increasing order, so that none occurs twice.
pub open spec fn increasing(entries: Seq<(String, i32)>) -> bool {
    forall|i: int, j: int|
        0 <= i < j < entries.len() ==> before(#[trigger] entries[i].0@, #[trigger] entries[j].0@)
}

/// Whether `address` stands at index `i` of `entries`.
pub open spec fn stands_at(entries: Seq<(String, i32)>, address: Seq<char>, i: int) -> bool {
    0 <= i < entries.len() && entries[i].0@ == address
}

/// The map of *bind address* to *file descriptor* that `entries` lists.
pub open spec fn listed(entries: Seq<(String, i32)>) -> Map<Seq<char>, i32> {
    Map::new(
        |a: Seq<char>| exists|i: int| stands_at(entries, a, i),
        |a: Seq<char>| entries[choose|i: int| stands_at(entries, a, i)].1,
    )
}

proof fn lemma_listed(entries: Seq<(String, i32)>, i: int)
    requires
        increasing(entries),
        0 <= i < entries.len(),
    ensures
        listed(entries).contains_key(entries[i].0@),
        listed(entries)[entries[i].0@] == entries[i].1,
{
    let a = entries[i].0@;
    assert(stands_at(entries, a, i));
    let j = choose|j: int| stands_at(entries, a, j);
    lemma_before_is_strict(a);
    if j < i {
        assert(before(entries[j].0@, entries[i].0@));
    } else if i < j {
        assert(before(entries[i].0@, entries[j].0@));
    }
}

/// A map of *bind address* to *file descriptor*, ordered by address.
#[derive(Debug)]
pub struct PortMap {
    entries: Vec<(String, i32)>,
}

impl View for PortMap {
    type V = Map<Seq<char>, i32>;

    closed spec fn view(&self) -> Map<Seq<char>, i32> {
        listed(self.entries@)
    }
}

impl PortMap {
    /// Whether the addresses stand in increasing order.
    pub closed spec fn wf(&self) -> bool {
        increasing(self.entries@)
    }

    fn new() -> (r: PortMap)
        ensures
            r.wf(),
            r@ == Map::<Seq<char>, i32>::empty(),
    {
        let r = PortMap { entries: Vec::new() };
        assert(r@ =~= Map::<Seq<char>, i32>::empty());
        r
    }

    /// Maps `address` to `fd`, whatever it was mapped to before.
    fn insert(&mut self, address: String, fd: i32)
        requires
            old(self).wf(),
        ensures
            final(self).wf(),
            final(self)@ == old(self)@.insert(address@, fd),
    {
        let ghost was = self.entries@;
        let mut i: usize = 0;
        while i < self.entries.len()
            invariant
                i <= self.entries.len(),
                self.entries@ == was,
                was == old(self).entries@,
                increasing(was),
                forall|j: int| 0 <= j < i ==> before(#[trigger] was[j].0@, address@),
            decreases self.entries.len() - i,
        {
            match place(self.entries[i].0.as_str(), address.as_str()) {
                Place::Before => {
                    i = i + 1;
                },
                Place::Same => {
                    let key = self.entries[i].0.clone();
                    self.entries.set(i, (key, fd));
                    proof {
                        lemma_replaced(was, self.entries@, i as int, address@, fd);
                    }
                    return ;
                },
                Place::After => {
                    let ghost entry = (address, fd);
                    self.entries.insert(i, (address, fd));
                    proof {
                        assert forall|j: int| i <= j < was.len() implies before(
                            entry.0@,
                            #[trigger] was[j].0@,
                        ) by {
                            if i < j {
                                assert(before(was[i as int].0@, was[j].0@));
                                lemma_before_is_transitive(entry.0@, was[i as int].0@, was[j].0@);
                            }
                        }
                        lemma_inserted(was, i as int, entry);
                    }
                    return ;
                },
            }
        }
        let ghost entry = (address, fd);
        self.entries.push((address, fd));
        proof {
            assert(self.entries@ =~= was.insert(i as int, entry));
            lemma_inserted(was, i as int, entry);
        }
    }

    /// The number of addresses.
    pub fn len(&self) -> (r: usize)
        requires
            self.wf(),
        ensures
            r == self@.len(),
            self@.dom().finite(),
    {
        proof {
            lemma_count(self.entries@);
        }
        self.entries.len()
    }

    /// The file descriptor of `address`.
    pub fn get(&self, address: &str) -> (r: Option<&i32>)
        requires
            self.wf(),
        ensures
            match r {
                Some(fd) => self@.contains_key(address@) && self@[address@] == *fd,
                None => !self@.contains_key(address@),
            },
    {
        let mut i: usize = 0;
        while i < self.entries.len()
            invariant
                i <= self.entries.len(),
                self.wf(),
                forall|j: int| 0 <= j < i ==> #[trigger] self.entries@[j].0@ != address@,
            decreases self.entries.len() - i,
        {
            if place(self.entries[i].0.as_str(), address) == Place::Same {
                proof {
                    lemma_listed(self.entries@, i as int);
                }
                return Some(&self.entries[i].1);
            }
            i = i + 1;
        }
        None
    }

    /// The addresses and their file descriptors, in increasing order of the addresses.
    pub fn entries(&self) -> (r: &Vec<(String, i32)>)
        requires
            self.wf(),
        ensures
            increasing(r@),
            self@ == listed(r@),
    {
        &self.entries
    }
}

proof fn lemma_replaced(
    was: Seq<(String, i32)>,
    now: Seq<(String, i32)>,
    i: int,
    address: Seq<char>,
    fd: i32,
)
    requires
        increasing(was),
        0 <= i < was.len(),
        was[i].0@ == address,
        now.len() == was.len(),
        now[i].0@ == address,
        now[i].1 == fd,
        forall|j: int| 0 <= j < was.len() && j != i ==> #[trigger] now[j] == was[j],
    ensures
        increasing(now),
        listed(now) == listed(was).insert(address, fd),
{
    assert forall|j: int| 0 <= j < was.len() implies #[trigger] now[j].0@ == was[j].0@ by {}
    assert(increasing(now)) by {
        assert forall|j: int, k: int| 0 <= j < k < now.len() implies before(
            #[trigger] now[j].0@,
            #[trigger] now[k].0@,
        ) by {
            assert(before(was[j].0@, was[k].0@));
        }
    }
    let a = listed(now);
    let b = listed(was).insert(address, fd);
    assert forall|x: Seq<char>| #[trigger] a.contains_key(x) == b.contains_key(x) by {
        if a.contains_key(x) {
            let j = choose|j: int| stands_at(now, x, j);
            assert(stands_at(was, x, j));
        }
        if b.contains_key(x) {
            if x == address {
                assert(stands_at(now, x, i));
            } else {
                let j = choose|j: int| stands_at(was, x, j);
                assert(stands_at(now, x, j));
            }
        }
    }
    assert forall|x: Seq<char>| #[trigger] a.contains_key(x) implies a[x] == b[x] by {
        let j = choose|j: int| stands_at(now, x, j);
        lemma_listed(now, j);
        lemma_listed(was, j);
        if x == address {
            lemma_listed(now, i);
        }
    }
    assert(a =~= b);
}

proof fn lemma_inserted(was: Seq<(String, i32)>, i: int, entry: (String, i32))
    requires
        increasing(was),
        0 <= i <= was.len(),
        forall|j: int| 0 <= j < i ==> before(#[trigger] was[j].0@, entry.0@),
        forall|j: int| i <= j < was.len() ==> before(entry.0@, #[trigger] was[j].0@),
    ensures
        increasing(was.insert(i, entry)),
        listed(was.insert(i, entry)) == listed(was).insert(entry.0@, entry.1),
{
    let now = was.insert(i, entry);
    assert(increasing(now)) by {
        assert forall|j: int, k: int| 0 <= j < k < now.len() implies before(
            #[trigger] now[j].0@,
            #[trigger] now[k].0@,
        ) by {
            let j0 = if j < i {
                j
            } else {
                j - 1
            };
            let k0 = if k < i {
                k
            } else {
                k - 1
            };
            if j == i {
                assert(now[k] == was[k0]);
            } else if k == i {
                assert(now[j] == was[j0]);
            } else {
                assert(now[j] == was[j0]);
                assert(now[k] == was[k0]);
                assert(before(was[j0].0@, was[k0].0@));
            }
        }
    }
    let a = listed(now);
    let b = listed(was).insert(entry.0@, entry.1);
    assert forall|x: Seq<char>| #[trigger] a.contains_key(x) == b.contains_key(x) by {
        if a.contains_key(x) {
            let j = choose|j: int| stands_at(now, x, j);
            if j < i {
                assert(stands_at(was, x, j));
            } else if j > i {
                assert(stands_at(was, x, j - 1));
            }
        }
        if b.contains_key(x) {
            if x == entry.0@ {
                assert(stands_at(now, x, i));
            } else {
                let j = choose|j: int| stands_at(was, x, j);
                if j < i {
                    assert(stands_at(now, x, j));
                } else {
                    assert(stands_at(now, x, j + 1));
                }
            }
        }
    }
    assert forall|x: Seq<char>| #[trigger] a.contains_key(x) implies a[x] == b[x] by {
        let j = choose|j: int| stands_at(now, x, j);
        lemma_listed(now, j);
        if x == entry.0@ {
            lemma_listed(now, i);
        } else if j < i {
            lemma_listed(was, j);
        } else {
            lemma_listed(was, j - 1);
        }
    }
    assert(a =~= b);
}

proof fn lemma_count(entries: Seq<(String, i32)>)
    requires
        increasing(entries),
    ensures
        listed(entries).dom().finite(),
        listed(entries).len() == entries.len(),
    decreases entries.len(),
{
    if entries.len() == 0 {
        assert(listed(entries) =~= Map::<Seq<char>, i32>::empty());
    } else {
        let shorter = entries.drop_last();
        let last = entries.last();
        assert(increasing(shorter)) by {
            assert forall|j: int, k: int| 0 <= j < k < shorter.len() implies before(
                #[trigger] shorter[j].0@,
                #[trigger] shorter[k].0@,
            ) by {
                assert(before(entries[j].0@, entries[k].0@));
            }
        }
        lemma_count(shorter);
        assert forall|j: int| 0 <= j < shorter.len() implies before(
            #[trigger] shorter[j].0@,
            last.0@,
        ) by {
            assert(before(entries[j].0@, entries[entries.len() - 1].0@));
        }
        lemma_inserted(shorter, shorter.len() as int, last);
        assert(shorter.insert(shorter.len() as int, last) =~= entries);
        if listed(shorter).contains_key(last.0@) {
            let j = choose|j: int| stands_at(shorter, last.0@, j);
            assert(before(shorter[j].0@, last.0@));
            lemma_before_is_strict(last.0@);
        }
    }
}

/// The address and the file descriptor of one entry: the descriptor stands behind the last `=`.
pub open spec fn entry_read(entry: Seq<char>) -> Option<(Seq<char>, i32)> {
    match cut_last(entry, '=') {
        Some((address, fd)) => match read_i32(fd) {
            Some(n) => Some((address, n as i32)),
            None => None,
        },
        None => None,
    }
}

/// Reads the entries from left to right on top of `ports`; an empty entry is skipped, and the first
/// that cannot be read is the error.
pub open spec fn entries_read(entries: Seq<Seq<char>>, ports: Map<Seq<char>, i32>) -> Result<
    Map<Seq<char>, i32>,
    ErrorView,
>
    decreases entries.len(),
{
    if entries.len() == 0 {
        Ok(ports)
    } else if entries[0].len() == 0 {
        entries_read(entries.skip(1), ports)
    } else {
        match entry_read(entries[0]) {
            Some((address, fd)) => entries_read(entries.skip(1), ports.insert(address, fd)),
            None => Err(ErrorView::Malformed(entries[0])),
        }
    }
}

/// The map that the value `raw` of `SERVER_STARTER_PORT` stands for.
pub open spec fn ports_read(raw: Seq<char>) -> Result<Map<Seq<char>, i32>, ErrorView> {
    entries_read(pieces(raw, ';'), Map::empty())
}

/// Parses the value of `SERVER_STARTER_PORT`.
pub fn parse_ports(raw: &str) -> (r: Result<PortMap, Error>)
    ensures
        match r {
            Ok(ports) => ports.wf() && ports_read(raw@) == Ok::<_, ErrorView>(ports@),
            Err(e) => ports_read(raw@) == Err::<Map<Seq<char>, i32>, _>(e@),
        },
{
    let mut ports = PortMap::new();
    let entries = split(raw, ';');
    let ghost all = pieces(raw@, ';');
    let mut i: usize = 0;
    assert(all.skip(0) =~= all);
    while i < entries.len()
        invariant
            i <= entries.len(),
            ports.wf(),
            all == slice_texts(entries@),
            all == pieces(raw@, ';'),
            ports_read(raw@) == entries_read(all.skip(i as int), ports@),
        decreases entries.len() - i,
    {
        let entry = entries[i];
        assert(all.skip(i as int)[0] == entry@);
        assert(all.skip(i as int).skip(1) =~= all.skip(i + 1));
        i = i + 1;
        if entry.is_empty() {
            continue ;
        }
        // A unix socket path never contains '=', but to be safe we split on the *last* '=' so that
        // the file descriptor is always the trailing token.

        match rsplit_once(entry, '=') {
            Some((address, fd)) => match parse_i32(fd) {
                Some(fd) => ports.insert(String::from_str(address), fd),
                None => return Err(Error::Malformed(String::from_str(entry))),
            },
            None => return Err(Error::Malformed(String::from_str(entry))),
        }
    }
    Ok(ports)
}

/// The map that a worker finds, where the value of `SERVER_STARTER_PORT` is `value` if it is set.
pub open spec fn ports_found(value: Option<Seq<char>>) -> Result<Map<Seq<char>, i32>, ErrorView> {
    match value {
        Some(raw) => ports_read(raw),
        None => Err(ErrorView::NotUnderServerStarter),
    }
}

/// The generation that a worker finds, where the value of `SERVER_STARTER_GENERATION` is `value` if
/// it is set.
pub open spec fn generation_found(value: Option<Seq<char>>) -> Option<u64> {
    match value {
        Some(raw) => match read_unsigned(raw, u64::MAX as nat) {
            Some(n) => Some(n as u64),
            None => None,
        },
        None => None,
    }
}

/// A worker finds the generation that is written in decimal, and none where nothing is written, or
/// something else.
pub proof fn law_generation_is_found(n: u64, other: Seq<char>, i: int)
    requires
        other.len() == 0 || (0 < i < other.len() && !('0' <= other[i] <= '9')),
    ensures
        generation_found(Some(decimal(n as nat))) == Some(n),
        generation_found(Some(other)) is None,
        generation_found(None) is None,
{
    lemma_unsigned_round_trip(n as nat, u64::MAX as nat);
    law_other_texts_are_no_numbers(other, i, u64::MAX as nat);
}

/// A program that was not started by `start_server` is told so, and one whose sockets are malformed
/// is told of the entry, in quotes.
pub proof fn law_worker_errors(entry: Seq<char>)
    ensures
        ports_found(None) == Err::<Map<Seq<char>, i32>, _>(ErrorView::NotUnderServerStarter),
        ends_with(ErrorView::Malformed(entry).text(), quoted_text(entry)),
{
    lemma_ends_with("malformed SERVER_STARTER_PORT entry: "@, quoted_text(entry));
}

/// Parses `SERVER_STARTER_PORT`, whose value is `value` if it is set, and returns a map of *bind
/// address* to *file descriptor*.
///
/// The bind address is exactly the key that `start_server` used when binding the socket, e.g.
/// `"0.0.0.0:8080"`, `"[::1]:8080"` or a unix socket path such as `"/tmp/app.sock"`. The map is
/// ordered by address to make iteration deterministic.
pub fn server_ports(value: Option<&str>) -> (r: Result<PortMap, Error>)
    ensures
        match value {
            Some(raw) => match r {
                Ok(ports) => ports.wf() && ports_read(raw@) == Ok::<_, ErrorView>(ports@),
                Err(e) => ports_read(raw@) == Err::<Map<Seq<char>, i32>, _>(e@),
            },
            None => r == Err::<PortMap, _>(Error::NotUnderServerStarter),
        },
        match r {
            Ok(ports) => ports_found(text_read(value)) == Ok::<_, ErrorView>(ports@),
            Err(e) => ports_found(text_read(value)) == Err::<Map<Seq<char>, i32>, _>(e@),
        },
{
    match value {
        Some(raw) => parse_ports(raw),
        None => Err(Error::NotUnderServerStarter),
    }
}

/// The current worker generation, where the value of `SERVER_STARTER_GENERATION` is `value` if it
/// is set; `None` when the variable is absent or unparsable.
pub fn generation(value: Option<&str>) -> (r: Option<u64>)
    ensures
        match r {
            Some(n) => value is Some && read_unsigned(value->Some_0@, u64::MAX as nat) == Some(
                n as nat,
            ),
            None => value is Some ==> read_unsigned(value->Some_0@, u64::MAX as nat) is None,
        },
        r == generation_found(text_read(value)),
{
    match value {
        Some(raw) => parse_u64(raw),
        None => None,
    }
}

} // verus!
