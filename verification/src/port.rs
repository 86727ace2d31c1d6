//! Parsing of `--port`/`--path` specifications.
use crate::number::{
    all_digits, decimal, is_all_digits, is_digit, law_numbers_are_read, lemma_decimal_is_read_back,
    lemma_i32_round_trip, lemma_unsigned_round_trip, parse_i32, parse_u16, push_u64, read_i32,
    read_unsigned,
};
use crate::outside::{quoted, quoted_text};
use crate::text::{
    cut_last, ends_with, is_white, joined, law_trimming, lemma_cut_last_of_join, lemma_ends_with,
    lemma_last_index_is, lemma_trim_keeps, rsplit_once, trim, trimmed,
};
use vstd::prelude::*;
use vstd::string::StrSliceExecFns;
use vstd::string::StringExecFns;

verus! {

/// A socket bound by the superdaemon and inherited by workers.
#[derive(Debug)]
pub struct Listener {
    /// The key advertised in `SERVER_STARTER_PORT`, e.g. `0.0.0.0:8080` or a path.
    pub key: String,
    /// The file descriptor the worker will find the socket at.
    pub fd: i32,
}

/// What a [`Listener`] holds.
pub struct ListenerView {
    pub key: Seq<char>,
    pub fd: i32,
}

impl View for Listener {
    type V = ListenerView;

    open spec fn view(&self) -> ListenerView {
        ListenerView { key: self.key@, fd: self.fd }
    }
}

/// What the listeners of a list hold.
pub open spec fn listener_views(list: Seq<Listener>) -> Seq<ListenerView> {
    list.map_values(|l: Listener| l@)
}

/// The address of an internet socket.
#[derive(Debug, Clone, Copy, PartialEq, Eq, Structural)]
pub enum SocketAddress {
    V4 { ip: u32, port: u16 },
    V6 { ip: u128, port: u16, flowinfo: u32, scope_id: u32 },
}

impl SocketAddress {
    /// Whether this is an IPv6 address.
    pub fn is_ipv6(&self) -> (r: bool)
        ensures
            r == (self is V6),
    {
        match self {
            SocketAddress::V4 { .. } => false,
            SocketAddress::V6 { .. } => true,
        }
    }
}

/// Kind of a parsed port/path specification.
#[derive(Debug)]
pub enum Kind {
    Tcp(SocketAddress),
    Udp(SocketAddress),
    Unix(String),
}

/// What a [`Kind`] holds.
pub enum KindView {
    Tcp(SocketAddress),
    Udp(SocketAddress),
    Unix(Seq<char>),
}

impl View for Kind {
    type V = KindView;

    open spec fn view(&self) -> KindView {
        match *self {
            Kind::Tcp(a) => KindView::Tcp(a),
            Kind::Udp(a) => KindView::Udp(a),
            Kind::Unix(path) => KindView::Unix(path@),
        }
    }
}

/// A parsed port/path specification.
#[derive(Debug)]
pub struct Spec {
    pub key: String,
    pub kind: Kind,
    /// An explicit target file descriptor requested via the `=N` suffix, if any.
    pub want_fd: Option<i32>,
}

/// What a [`Spec`] holds.
pub struct SpecView {
    pub key: Seq<char>,
    pub kind: KindView,
    pub want_fd: Option<i32>,
}

impl View for Spec {
    type V = SpecView;

    open spec fn view(&self) -> SpecView {
        SpecView { key: self.key@, kind: self.kind@, want_fd: self.want_fd }
    }
}

/// What is wrong with a specification.
pub enum Fault {
    BadFd(Seq<char>),
    BadUdpPort(Seq<char>),
    BadPort(Seq<char>),
    Unresolved(Seq<char>, Seq<char>),
    NoAddress(Seq<char>),
    EmptyPath,
}

impl Fault {
    /// The message for the user.
    pub open spec fn text(self) -> Seq<char> {
        match self {
            Fault::BadFd(tail) => "invalid fd "@ + quoted_text(tail),
            Fault::BadUdpPort(digits) => "invalid udp port "@ + quoted_text(digits),
            Fault::BadPort(digits) => "invalid port "@ + quoted_text(digits),
            Fault::Unresolved(hostport, cause) => "cannot resolve "@ + quoted_text(hostport)
                + ": "@ + cause,
            Fault::NoAddress(hostport) => "no address resolved for "@ + quoted_text(hostport),
            Fault::EmptyPath => "empty path"@,
        }
    }
}

/// Whether `s` is a non-empty text of digits.
pub open spec fn is_number(s: Seq<char>) -> bool {
    s.len() > 0 && all_digits(s)
}

/// A specification without its trailing `=<fd>`, and that file descriptor.
pub open spec fn fd_split(s: Seq<char>) -> Result<(Seq<char>, Option<i32>), Fault> {
    match cut_last(s, '=') {
        Some((head, tail)) => if !is_number(tail) {
            Ok((s, None))
        } else {
            match read_i32(tail) {
                Some(fd) => Ok((head, Some(fd as i32))),
                None => Err(Fault::BadFd(tail)),
            }
        },
        None => Ok((s, None)),
    }
}

/// `0.0.0.0`, with a port.
pub open spec fn any_address(port: nat) -> SocketAddress {
    SocketAddress::V4 { ip: 0, port: port as u16 }
}

/// How `0.0.0.0` is advertised, with a port.
pub open spec fn any_key(port: nat) -> Seq<char> {
    "0.0.0.0:"@ + decimal(port)
}

/// What a `--port` specification asks for: a socket, or a look-up of the host name first.
pub enum PlanView {
    Ready(SpecView),
    Lookup(Seq<char>, Option<i32>),
}

/// Reads a `--port` specification whose file descriptor has been split off and whose white space
/// has been trimmed: `u<port>` for UDP, `<port>` for TCP, and anything else as `host:port`.
pub open spec fn plan_of(s: Seq<char>, want_fd: Option<i32>) -> Result<PlanView, Fault> {
    if s.len() > 0 && s[0] == 'u' && is_number(s.skip(1)) {
        match read_unsigned(s.skip(1), 0xffff) {
            Some(port) => Ok(
                PlanView::Ready(
                    SpecView {
                        key: any_key(port),
                        kind: KindView::Udp(any_address(port)),
                        want_fd,
                    },
                ),
            ),
            None => Err(Fault::BadUdpPort(s.skip(1))),
        }
    } else if is_number(s) {
        match read_unsigned(s, 0xffff) {
            Some(port) => Ok(
                PlanView::Ready(
                    SpecView {
                        key: any_key(port),
                        kind: KindView::Tcp(any_address(port)),
                        want_fd,
                    },
                ),
            ),
            None => Err(Fault::BadPort(s)),
        }
    } else {
        Ok(PlanView::Lookup(s, want_fd))
    }
}

/// What the `--port` specification `raw` asks for.
pub open spec fn port_plan(raw: Seq<char>) -> Result<PlanView, Fault> {
    match fd_split(raw) {
        Ok((s, want_fd)) => plan_of(trimmed(s), want_fd),
        Err(e) => Err(e),
    }
}

/// The socket that the `--path` specification `raw` asks for.
pub open spec fn path_spec(raw: Seq<char>) -> Result<SpecView, Fault> {
    match fd_split(raw) {
        Ok((path, want_fd)) => if path.len() == 0 {
            Err(Fault::EmptyPath)
        } else {
            Ok(SpecView { key: path, kind: KindView::Unix(path), want_fd })
        },
        Err(e) => Err(e),
    }
}

/// What looking up a host name gave: the addresses in order, or the text of the error.
#[derive(Debug)]
pub enum Resolution {
    Addresses(Vec<SocketAddress>),
    Failed(String),
}

/// What a [`Resolution`] holds.
pub enum ResolutionView {
    Addresses(Seq<SocketAddress>),
    Failed(Seq<char>),
}

impl View for Resolution {
    type V = ResolutionView;

    open spec fn view(&self) -> ResolutionView {
        match *self {
            Resolution::Addresses(list) => ResolutionView::Addresses(list@),
            Resolution::Failed(cause) => ResolutionView::Failed(cause@),
        }
    }
}

/// The address that a look-up of `hostport` settles on: the first.
pub open spec fn settled(hostport: Seq<char>, found: ResolutionView) -> Result<
    SocketAddress,
    Fault,
> {
    match found {
        ResolutionView::Addresses(list) => if list.len() > 0 {
            Ok(list[0])
        } else {
            Err(Fault::NoAddress(hostport))
        },
        ResolutionView::Failed(cause) => Err(Fault::Unresolved(hostport, cause)),
    }
}

/// The socket that the `--port` specification `raw` asks for, where a look-up of its host name, if
/// one is needed, gives `found`.
pub open spec fn port_spec(raw: Seq<char>, found: ResolutionView) -> Result<SpecView, Fault> {
    match port_plan(raw) {
        Ok(PlanView::Ready(s)) => Ok(s),
        Ok(PlanView::Lookup(hostport, want_fd)) => match settled(hostport, found) {
            Ok(a) => Ok(SpecView { key: hostport, kind: KindView::Tcp(a), want_fd }),
            Err(e) => Err(e),
        },
        Err(e) => Err(e),
    }
}

/// What a `--port` specification asks for: a socket, or a look-up of the host name first.
#[derive(Debug)]
pub enum PortPlan {
    Ready(Spec),
    Lookup(String, Option<i32>),
}

impl View for PortPlan {
    type V = PlanView;

    open spec fn view(&self) -> PlanView {
        match *self {
            PortPlan::Ready(s) => PlanView::Ready(s@),
            PortPlan::Lookup(hostport, want_fd) => PlanView::Lookup(hostport@, want_fd),
        }
    }
}

/// Splits an optional trailing `=<fd>` file-descriptor override off a spec.
pub fn split_fd<'a>(spec: &'a str) -> (r: Result<(&'a str, Option<i32>), String>)
    ensures
        match r {
            Ok((head, fd)) => fd_split(spec@) == Ok::<_, Fault>((head@, fd)),
            Err(m) => fd_split(spec@) matches Err(e) && m@ == e.text(),
        },
{
    match rsplit_once(spec, '=') {
        Some((head, tail)) => {
            if tail.is_empty() || !is_all_digits(tail) {
                return Ok((spec, None));
            }
            match parse_i32(tail) {
                Some(fd) => Ok((head, Some(fd))),
                None => Err(joined("invalid fd ", quoted(tail).as_str())),
            }
        },
        None => Ok((spec, None)),
    }
}

/// `0.0.0.0:<port>`.
fn any_host(port: u16) -> (r: String)
    ensures
        r@ == any_key(port as nat),
{
    let mut r = String::from_str("0.0.0.0:");
    push_u64(&mut r, port as u64);
    r
}

/// Finds out what the `--port` specification `raw` asks for.
pub fn plan_port(raw: &str) -> (r: Result<PortPlan, String>)
    ensures
        match r {
            Ok(plan) => port_plan(raw@) == Ok::<_, Fault>(plan@),
            Err(m) => port_plan(raw@) matches Err(e) && m@ == e.text(),
        },
{
    let (spec, want_fd) = match split_fd(raw) {
        Ok(parts) => parts,
        Err(m) => return Err(m),
    };
    let spec = trim(spec);
    // UDP is written as `u<port>` (a bare UDP port). This is intentionally narrow so that ordinary
    // host names beginning with 'u' are never misread.
    let n = spec.unicode_len();
    if n > 0 && spec.get_char(0) == 'u' {
        let rest = spec.substring_char(1, n);
        assert(rest@ =~= spec@.skip(1));
        if !rest.is_empty() && is_all_digits(rest) {
            return match parse_u16(rest) {
                Some(port) => Ok(
                    PortPlan::Ready(
                        Spec {
                            key: any_host(port),
                            kind: Kind::Udp(SocketAddress::V4 { ip: 0, port }),
                            want_fd,
                        },
                    ),
                ),
                None => Err(joined("invalid udp port ", quoted(rest).as_str())),
            };
        }
    }
    // Bare port number -> bind 0.0.0.0.

    if !spec.is_empty() && is_all_digits(spec) {
        return match parse_u16(spec) {
            Some(port) => Ok(
                PortPlan::Ready(
                    Spec {
                        key: any_host(port),
                        kind: Kind::Tcp(SocketAddress::V4 { ip: 0, port }),
                        want_fd,
                    },
                ),
            ),
            None => Err(joined("invalid port ", quoted(spec).as_str())),
        };
    }
    // `host:port`, including `[::1]:port` for IPv6.

    Ok(PortPlan::Lookup(String::from_str(spec), want_fd))
}

/// Settles on the first address that a look-up of `hostport` found.
pub fn resolve(hostport: &str, found: &Resolution) -> (r: Result<SocketAddress, String>)
    ensures
        match r {
            Ok(a) => settled(hostport@, found@) == Ok::<_, Fault>(a),
            Err(m) => settled(hostport@, found@) matches Err(e) && m@ == e.text(),
        },
{
    match found {
        Resolution::Addresses(list) => {
            if list.len() > 0 {
                Ok(list[0])
            } else {
                Err(joined("no address resolved for ", quoted(hostport).as_str()))
            }
        },
        Resolution::Failed(cause) => {
            let mut m = joined("cannot resolve ", quoted(hostport).as_str());
            m.append(": ");
            m.append(cause.as_str());
            Err(m)
        },
    }
}

/// Parses a `--port` specification, where a look-up of its host name, if one is needed, gave
/// `found`.
pub fn parse_port(raw: &str, found: &Resolution) -> (r: Result<Spec, String>)
    ensures
        match r {
            Ok(s) => port_spec(raw@, found@) == Ok::<_, Fault>(s@),
            Err(m) => port_spec(raw@, found@) matches Err(e) && m@ == e.text(),
        },
{
    match plan_port(raw) {
        Ok(PortPlan::Ready(s)) => Ok(s),
        Ok(PortPlan::Lookup(hostport, want_fd)) => match resolve(hostport.as_str(), found) {
            Ok(a) => Ok(Spec { key: hostport, kind: Kind::Tcp(a), want_fd }),
            Err(m) => Err(m),
        },
        Err(m) => Err(m),
    }
}

/// Parses a `--path` specification.
pub fn parse_path(raw: &str) -> (r: Result<Spec, String>)
    ensures
        match r {
            Ok(s) => path_spec(raw@) == Ok::<_, Fault>(s@),
            Err(m) => path_spec(raw@) matches Err(e) && m@ == e.text(),
        },
{
    let (path, want_fd) = match split_fd(raw) {
        Ok(parts) => parts,
        Err(m) => return Err(m),
    };
    if path.is_empty() {
        return Err(String::from_str("empty path"));
    }
    Ok(Spec { key: String::from_str(path), kind: Kind::Unix(String::from_str(path)), want_fd })
}

/// A decimal number is one, is not changed by trimming, and holds neither `=` nor a leading `u`.
pub proof fn lemma_digits(n: nat)
    ensures
        is_number(decimal(n)),
        trimmed(decimal(n)) == decimal(n),
        !decimal(n).contains('='),
        cut_last(decimal(n), '=') is None,
        decimal(n)[0] != 'u',
{
    let s = decimal(n);
    lemma_decimal_is_read_back(n);
    assert(is_digit(s[0]) && is_digit(s[s.len() - 1]));
    lemma_trim_keeps(s);
    assert forall|i: int| 0 <= i < s.len() implies #[trigger] s[i] != '=' by {
        assert(is_digit(s[i]));
    }
    lemma_last_index_is(s, '=', -1);
}

/// A trailing `=` and a number ask for a descriptor.
pub proof fn law_fd_is_split_off(spec: Seq<char>, fd: nat)
    requires
        fd <= i32::MAX,
    ensures
        fd_split(spec + seq!['='] + decimal(fd)) == Ok::<_, Fault>((spec, Some(fd as i32))),
{
    lemma_digits(fd);
    lemma_cut_last_of_join(spec, '=', decimal(fd));
    lemma_i32_round_trip(fd as i32);
}

/// A bare port number binds `0.0.0.0`.
pub proof fn law_bare_port_binds_any_address(port: nat)
    requires
        port <= u16::MAX,
    ensures
        port_plan(decimal(port)) == Ok::<_, Fault>(
            PlanView::Ready(
                SpecView {
                    key: "0.0.0.0:"@ + decimal(port),
                    kind: KindView::Tcp(SocketAddress::V4 { ip: 0, port: port as u16 }),
                    want_fd: None,
                },
            ),
        ),
{
    lemma_digits(port);
    lemma_unsigned_round_trip(port, 0xffff);
}

/// A port number behind a `u` binds `0.0.0.0` for UDP.
pub proof fn law_udp_port_binds_any_address(port: nat)
    requires
        port <= u16::MAX,
    ensures
        port_plan(seq!['u'] + decimal(port)) == Ok::<_, Fault>(
            PlanView::Ready(
                SpecView {
                    key: "0.0.0.0:"@ + decimal(port),
                    kind: KindView::Udp(SocketAddress::V4 { ip: 0, port: port as u16 }),
                    want_fd: None,
                },
            ),
        ),
{
    let s = seq!['u'] + decimal(port);
    lemma_digits(port);
    lemma_unsigned_round_trip(port, 0xffff);
    lemma_decimal_is_read_back(port);
    assert(s.skip(1) =~= decimal(port));
    assert(s.last() == decimal(port).last());
    assert(is_digit(decimal(port)[decimal(port).len() - 1]));
    lemma_trim_keeps(s);
    assert forall|i: int| 0 <= i < s.len() implies #[trigger] s[i] != '=' by {
        if i > 0 {
            assert(s[i] == decimal(port)[i - 1]);
        }
    }
    lemma_last_index_is(s, '=', -1);
}

/// A path, with or without a descriptor, is bound and advertised as it is given.
pub proof fn law_path_is_its_key(path: Seq<char>, fd: nat)
    requires
        path.len() > 0,
        fd <= i32::MAX,
    ensures
        path_spec(path + seq!['='] + decimal(fd)) == Ok::<_, Fault>(
            SpecView { key: path, kind: KindView::Unix(path), want_fd: Some(fd as i32) },
        ),
        !path.contains('=') ==> path_spec(path) == Ok::<_, Fault>(
            SpecView { key: path, kind: KindView::Unix(path), want_fd: None },
        ),
{
    law_fd_is_split_off(path, fd);
    if !path.contains('=') {
        assert forall|i: int| 0 <= i < path.len() implies #[trigger] path[i] != '=' by {
            assert(path.contains(path[i]));
        }
        lemma_last_index_is(path, '=', -1);
    }
}

proof fn lemma_nothing_to_cut(s: Seq<char>, c: char)
    requires
        !s.contains(c),
    ensures
        cut_last(s, c) is None,
{
    assert forall|i: int| 0 <= i < s.len() implies #[trigger] s[i] != c by {
        assert(s.contains(s[i]));
    }
    lemma_last_index_is(s, c, -1);
}

/// A descriptor that does not fit is refused, and what stands behind the last `=` is no descriptor
/// unless it is a number.
pub proof fn law_other_descriptors(spec: Seq<char>, fd: nat, tail: Seq<char>, i: int)
    requires
        !tail.contains('='),
        tail.len() == 0 || (0 <= i < tail.len() && !('0' <= tail[i] <= '9')),
    ensures
        fd > i32::MAX ==> fd_split(spec + seq!['='] + decimal(fd)) == Err::<
            (Seq<char>, Option<i32>),
            _,
        >(Fault::BadFd(decimal(fd))),
        fd_split(spec + seq!['='] + tail) == Ok::<_, Fault>(
            (spec + seq!['='] + tail, None::<i32>),
        ),
{
    lemma_digits(fd);
    lemma_cut_last_of_join(spec, '=', decimal(fd));
    lemma_cut_last_of_join(spec, '=', tail);
    let none = Seq::new(0, |j: int| '0');
    law_numbers_are_read(0, fd, 0);
    assert(none + decimal(fd) =~= decimal(fd));
    if tail.len() > 0 {
        assert(!is_digit(tail[i]));
    }
}

/// A descriptor behind a port changes nothing but the descriptor that is asked for; without one,
/// none is asked for.
pub proof fn law_port_with_descriptor(spec: Seq<char>, fd: nat)
    requires
        !spec.contains('='),
        fd <= i32::MAX,
    ensures
        match port_plan(spec) {
            Ok(PlanView::Ready(s)) => s.want_fd is None && port_plan(
                spec + seq!['='] + decimal(fd),
            ) == Ok::<_, Fault>(PlanView::Ready(SpecView { want_fd: Some(fd as i32), ..s })),
            Ok(PlanView::Lookup(hostport, want_fd)) => want_fd is None && port_plan(
                spec + seq!['='] + decimal(fd),
            ) == Ok::<_, Fault>(PlanView::Lookup(hostport, Some(fd as i32))),
            Err(e) => port_plan(spec + seq!['='] + decimal(fd)) == Err::<PlanView, _>(e),
        },
{
    law_fd_is_split_off(spec, fd);
    lemma_nothing_to_cut(spec, '=');
}

/// White space around a port is of no account.
pub proof fn law_port_is_trimmed(a: Seq<char>, spec: Seq<char>, b: Seq<char>)
    requires
        !spec.contains('='),
        forall|i: int| 0 <= i < a.len() ==> is_white(#[trigger] a[i]),
        forall|i: int| 0 <= i < b.len() ==> is_white(#[trigger] b[i]),
    ensures
        port_plan(a + spec + b) == port_plan(spec),
{
    let all = a + spec + b;
    law_trimming(a, spec, b);
    lemma_nothing_to_cut(spec, '=');
    if all.contains('=') {
        let i = choose|i: int| 0 <= i < all.len() && all[i] == '=';
        if i < a.len() {
            assert(is_white(a[i]));
        } else if i < a.len() + spec.len() {
            assert(spec[i - a.len()] == '=');
        } else {
            assert(is_white(b[i - a.len() - spec.len()]));
        }
    }
    lemma_nothing_to_cut(all, '=');
}

/// A port number that does not fit is refused.
pub proof fn law_port_out_of_range(port: nat)
    requires
        port > u16::MAX,
    ensures
        port_plan(decimal(port)) == Err::<PlanView, _>(Fault::BadPort(decimal(port))),
        port_plan(seq!['u'] + decimal(port)) == Err::<PlanView, _>(
            Fault::BadUdpPort(decimal(port)),
        ),
{
    let s = seq!['u'] + decimal(port);
    lemma_digits(port);
    lemma_decimal_is_read_back(port);
    law_numbers_are_read(0, port, 0xffff);
    assert(Seq::new(0, |j: int| '0') + decimal(port) =~= decimal(port));
    assert(s.skip(1) =~= decimal(port));
    assert(s.last() == decimal(port).last());
    assert(is_digit(decimal(port)[decimal(port).len() - 1]));
    lemma_trim_keeps(s);
    if s.contains('=') {
        let i = choose|i: int| 0 <= i < s.len() && s[i] == '=';
        assert(decimal(port)[i - 1] == '=');
    }
    lemma_nothing_to_cut(s, '=');
}

/// A `host:port` is looked up as it is written, is bound over TCP at the first address that is
/// found, and is advertised as it is written.
pub proof fn law_host_is_looked_up(hostport: Seq<char>, found: ResolutionView)
    requires
        hostport.contains(':'),
        !hostport.contains('='),
        !is_white(hostport[0]),
        !is_white(hostport.last()),
    ensures
        port_plan(hostport) == Ok::<_, Fault>(PlanView::Lookup(hostport, None)),
        port_spec(hostport, found) == (match found {
            ResolutionView::Addresses(list) => if list.len() > 0 {
                Ok(
                    SpecView {
                        key: hostport,
                        kind: KindView::Tcp(list.first()),
                        want_fd: None,
                    },
                )
            } else {
                Err(Fault::NoAddress(hostport))
            },
            ResolutionView::Failed(cause) => Err(Fault::Unresolved(hostport, cause)),
        }),
{
    lemma_trim_keeps(hostport);
    lemma_nothing_to_cut(hostport, '=');
    let i = choose|i: int| 0 <= i < hostport.len() && hostport[i] == ':';
    assert(!is_digit(hostport[i]));
    if hostport[0] == 'u' {
        assert(hostport.skip(1)[i - 1] == ':');
    }
}

/// A number needs no look-up: what one would give is of no account.
pub proof fn law_numbers_are_not_looked_up(port: nat, found: ResolutionView, other: ResolutionView)
    requires
        port <= u16::MAX,
    ensures
        port_spec(decimal(port), found) is Ok,
        port_spec(decimal(port), found) == port_spec(decimal(port), other),
        port_spec(seq!['u'] + decimal(port), found) is Ok,
        port_spec(seq!['u'] + decimal(port), found) == port_spec(
            seq!['u'] + decimal(port),
            other,
        ),
{
    law_bare_port_binds_any_address(port);
    law_udp_port_binds_any_address(port);
}

/// There is no socket without a path.
pub proof fn law_empty_path_is_refused(fd: nat)
    requires
        fd <= i32::MAX,
    ensures
        path_spec(Seq::empty()) == Err::<SpecView, _>(Fault::EmptyPath),
        path_spec(seq!['='] + decimal(fd)) == Err::<SpecView, _>(Fault::EmptyPath),
{
    let none = Seq::<char>::empty();
    lemma_nothing_to_cut(none, '=');
    law_fd_is_split_off(none, fd);
    assert(none + seq!['='] + decimal(fd) =~= seq!['='] + decimal(fd));
}

/// A fault tells what is wrong, in quotes, and why a look-up failed.
pub proof fn law_faults_tell_what_is_wrong(x: Seq<char>, cause: Seq<char>)
    ensures
        ends_with(Fault::BadFd(x).text(), quoted_text(x)),
        ends_with(Fault::BadUdpPort(x).text(), quoted_text(x)),
        ends_with(Fault::BadPort(x).text(), quoted_text(x)),
        ends_with(Fault::NoAddress(x).text(), quoted_text(x)),
        ends_with(Fault::Unresolved(x, cause).text(), quoted_text(x) + ": "@ + cause),
{
    lemma_ends_with("invalid fd "@, quoted_text(x));
    lemma_ends_with("invalid udp port "@, quoted_text(x));
    lemma_ends_with("invalid port "@, quoted_text(x));
    lemma_ends_with("no address resolved for "@, quoted_text(x));
    lemma_ends_with("cannot resolve "@, quoted_text(x) + ": "@ + cause);
    assert(Fault::Unresolved(x, cause).text() =~= "cannot resolve "@ + (quoted_text(x) + ": "@
        + cause));
}

} // verus!
