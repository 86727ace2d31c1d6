//! The course of binding every `--port` and `--path` in order: what to look up, which sockets to
//! make, and which file descriptors they end at.
use crate::number::decimal;
use crate::port::{
    law_bare_port_binds_any_address, law_path_is_its_key, law_port_with_descriptor, lemma_digits,
    listener_views, parse_path, path_spec, plan_port, port_plan, resolve, settled, Fault, Kind,
    KindView, Listener, ListenerView, PlanView, PortPlan, Resolution, SocketAddress, Spec, SpecView,
};
use crate::text::texts;
use vstd::prelude::*;
use vstd::string::StringExecFns;

verus! {

/// Where a socket is bound.
#[derive(Debug)]
pub enum Endpoint {
    Inet(SocketAddress),
    Unix(String),
}

/// What an [`Endpoint`] holds.
pub enum EndpointView {
    Inet(SocketAddress),
    Unix(Seq<char>),
}

impl View for Endpoint {
    type V = EndpointView;

    open spec fn view(&self) -> EndpointView {
        match *self {
            Endpoint::Inet(a) => EndpointView::Inet(a),
            Endpoint::Unix(path) => EndpointView::Unix(path@),
        }
    }
}

/// The transport protocol of a socket.
#[derive(Debug, Clone, Copy, PartialEq, Eq, Structural)]
pub enum Transport {
    Tcp,
    Udp,
    Unix,
}

/// How a socket is to be made.
#[derive(Debug)]
pub struct SocketPlan {
    pub endpoint: Endpoint,
    pub transport: Transport,
    /// Whether the address may be used again at once.
    pub reuse_address: bool,
    /// Whether an IPv6 socket is kept from taking IPv4 connections, so that an explicit `[::]` and
    /// `0.0.0.0` pair can coexist.
    pub only_v6: bool,
    /// Whether a socket file left behind by a previous, crashed run is removed first.
    pub remove_stale: bool,
    /// The backlog to listen with, for a socket that listens.
    pub backlog: Option<i32>,
}

/// What a [`SocketPlan`] holds.
pub struct SocketPlanView {
    pub endpoint: EndpointView,
    pub transport: Transport,
    pub reuse_address: bool,
    pub only_v6: bool,
    pub remove_stale: bool,
    pub backlog: Option<i32>,
}

impl View for SocketPlan {
    type V = SocketPlanView;

    open spec fn view(&self) -> SocketPlanView {
        SocketPlanView {
            endpoint: self.endpoint@,
            transport: self.transport,
            reuse_address: self.reuse_address,
            only_v6: self.only_v6,
            remove_stale: self.remove_stale,
            backlog: self.backlog,
        }
    }
}

/// What stands at the path of a unix socket before it is bound.
#[derive(Debug, Clone, Copy, PartialEq, Eq, Structural)]
pub enum Occupant {
    /// Nothing, or nothing that can be looked at.
    Nothing,
    /// A socket file.
    Socket,
    /// Any other file.
    Other,
}

impl SocketPlanView {
    /// Whether `occupant` is removed before the socket is bound: only a socket file ever is, and
    /// only at the path of a unix socket.
    pub open spec fn clears(self, occupant: Occupant) -> bool {
        self.remove_stale && occupant is Socket
    }
}

impl SocketPlan {
    /// Whether `occupant` is removed before the socket is bound.
    pub fn clears(&self, occupant: Occupant) -> (r: bool)
        ensures
            r == self@.clears(occupant),
    {
        match occupant {
            Occupant::Socket => self.remove_stale,
            _ => false,
        }
    }
}

/// A socket file that stands at the path of a unix socket is removed first, and any other file is
/// left alone; nothing is removed for a socket that is not bound to a path.
pub proof fn law_only_a_stale_socket_is_removed(kind: KindView, backlog: i32, occupant: Occupant)
    ensures
        planned(kind, backlog).clears(occupant) <==> kind is Unix && occupant is Socket,
{
}

/// How a socket of the kind `kind` is made.
pub open spec fn planned(kind: KindView, backlog: i32) -> SocketPlanView {
    match kind {
        KindView::Tcp(a) => SocketPlanView {
            endpoint: EndpointView::Inet(a),
            transport: Transport::Tcp,
            reuse_address: true,
            only_v6: a is V6,
            remove_stale: false,
            backlog: Some(backlog),
        },
        KindView::Udp(a) => SocketPlanView {
            endpoint: EndpointView::Inet(a),
            transport: Transport::Udp,
            reuse_address: true,
            only_v6: false,
            remove_stale: false,
            backlog: None,
        },
        KindView::Unix(path) => SocketPlanView {
            endpoint: EndpointView::Unix(path),
            transport: Transport::Unix,
            reuse_address: false,
            only_v6: false,
            remove_stale: true,
            backlog: Some(backlog),
        },
    }
}

/// Plans a socket of the kind `kind`.
pub fn socket_plan(kind: &Kind, backlog: i32) -> (r: SocketPlan)
    ensures
        r@ == planned(kind@, backlog),
{
    match kind {
        Kind::Tcp(a) => SocketPlan {
            endpoint: Endpoint::Inet(*a),
            transport: Transport::Tcp,
            reuse_address: true,
            only_v6: a.is_ipv6(),
            remove_stale: false,
            backlog: Some(backlog),
        },
        Kind::Udp(a) => SocketPlan {
            endpoint: Endpoint::Inet(*a),
            transport: Transport::Udp,
            reuse_address: true,
            only_v6: false,
            remove_stale: false,
            backlog: None,
        },
        Kind::Unix(path) => SocketPlan {
            endpoint: Endpoint::Unix(path.clone()),
            transport: Transport::Unix,
            reuse_address: false,
            only_v6: false,
            remove_stale: true,
            backlog: Some(backlog),
        },
    }
}

/// The descriptor that a socket bound at `fd` ends at: the one asked for, if one was.
pub open spec fn final_fd(want_fd: Option<i32>, fd: i32) -> i32 {
    match want_fd {
        Some(want) => want,
        None => fd,
    }
}

/// What the binding of one socket waits for.
#[derive(Debug)]
enum Waiting {
    ForAddress(String, Option<i32>),
    ForSocket(Spec),
    ForPlace(String, i32, i32),
    ForNothing,
}

/// What the binding of one socket waits for: the look-up of a host name (with the descriptor asked
/// for), a bound socket, a socket under the key of the first field to be moved from the second to
/// the third and kept open in workers, or nothing, since all are bound.
pub enum WaitingView {
    ForAddress(Seq<char>, Option<i32>),
    ForSocket(SpecView),
    ForPlace(Seq<char>, i32, i32),
    ForNothing,
}

impl View for Waiting {
    type V = WaitingView;

    closed spec fn view(&self) -> WaitingView {
        match *self {
            Waiting::ForAddress(hostport, want_fd) => WaitingView::ForAddress(hostport@, want_fd),
            Waiting::ForSocket(s) => WaitingView::ForSocket(s@),
            Waiting::ForPlace(key, from, to) => WaitingView::ForPlace(key@, from, to),
            Waiting::ForNothing => WaitingView::ForNothing,
        }
    }
}

/// The binding of all sockets, part of the way through.
#[derive(Debug)]
pub struct Binding {
    ports: Vec<String>,
    paths: Vec<String>,
    backlog: i32,
    listeners: Vec<Listener>,
    waiting: Waiting,
}

/// What a [`Binding`] holds.
pub struct BindingView {
    pub ports: Seq<Seq<char>>,
    pub paths: Seq<Seq<char>>,
    pub backlog: i32,
    pub listeners: Seq<ListenerView>,
    pub waiting: WaitingView,
}

impl View for Binding {
    type V = BindingView;

    closed spec fn view(&self) -> BindingView {
        BindingView {
            ports: texts(self.ports@),
            paths: texts(self.paths@),
            backlog: self.backlog,
            listeners: listener_views(self.listeners@),
            waiting: self.waiting@,
        }
    }
}

/// What to do next towards binding all sockets.
#[derive(Debug)]
pub enum BindRequest {
    /// Look up a `host:port`.
    Resolve(String),
    /// Make and bind a socket.
    Bind(SocketPlan),
    /// Move the socket at the first descriptor to the second, which is another, and keep it open in
    /// workers.
    Move(i32, i32),
    /// Leave the socket at that descriptor, and keep it open in workers.
    Keep(i32),
    /// Nothing: all sockets are bound.
    Finished,
}

/// What a [`BindRequest`] holds.
pub enum BindRequestView {
    Resolve(Seq<char>),
    Bind(SocketPlanView),
    Move(i32, i32),
    Keep(i32),
    Finished,
}

impl View for BindRequest {
    type V = BindRequestView;

    open spec fn view(&self) -> BindRequestView {
        match *self {
            BindRequest::Resolve(hostport) => BindRequestView::Resolve(hostport@),
            BindRequest::Bind(plan) => BindRequestView::Bind(plan@),
            BindRequest::Move(from, to) => BindRequestView::Move(from, to),
            BindRequest::Keep(fd) => BindRequestView::Keep(fd),
            BindRequest::Finished => BindRequestView::Finished,
        }
    }
}

/// The message for a fault in the value `raw` of the option `option`.
pub open spec fn fault_text(option: Seq<char>, raw: Seq<char>, e: Fault) -> Seq<char> {
    option + " "@ + raw + ": "@ + e.text()
}

/// The key under which a `--port` is advertised, and the descriptor that it asks for.
pub open spec fn port_promise(raw: Seq<char>) -> (Seq<char>, Option<i32>) {
    match port_plan(raw)->Ok_0 {
        PlanView::Ready(s) => (s.key, s.want_fd),
        PlanView::Lookup(hostport, want_fd) => (hostport, want_fd),
    }
}

/// The key under which a `--path` is advertised, and the descriptor that it asks for.
pub open spec fn path_promise(raw: Seq<char>) -> (Seq<char>, Option<i32>) {
    (path_spec(raw)->Ok_0.key, path_spec(raw)->Ok_0.want_fd)
}

impl BindingView {
    /// The number of sockets to bind.
    pub open spec fn total(self) -> nat {
        self.ports.len() + self.paths.len()
    }

    /// The key of the socket of number `i`, and the descriptor that it is to end at if one was
    /// asked for: the ports come first, the paths follow.
    pub open spec fn promise(self, i: int) -> (Seq<char>, Option<i32>) {
        if i < self.ports.len() {
            port_promise(self.ports[i])
        } else {
            path_promise(self.paths[i - self.ports.len()])
        }
    }

    /// What the socket of number `listeners.len()` waits for first, or what is wrong with it.
    pub open spec fn opening(self) -> Result<WaitingView, Seq<char>> {
        let i = self.listeners.len() as int;
        if i < self.ports.len() {
            let raw = self.ports[i];
            match port_plan(raw) {
                Ok(PlanView::Ready(s)) => Ok(WaitingView::ForSocket(s)),
                Ok(PlanView::Lookup(hostport, want_fd)) => Ok(
                    WaitingView::ForAddress(hostport, want_fd),
                ),
                Err(e) => Err(fault_text("--port"@, raw, e)),
            }
        } else if i < self.total() {
            let raw = self.paths[i - self.ports.len()];
            match path_spec(raw) {
                Ok(s) => Ok(WaitingView::ForSocket(s)),
                Err(e) => Err(fault_text("--path"@, raw, e)),
            }
        } else {
            Ok(WaitingView::ForNothing)
        }
    }

    /// The request that stands.
    pub open spec fn request(self) -> BindRequestView {
        match self.waiting {
            WaitingView::ForAddress(hostport, _) => BindRequestView::Resolve(hostport),
            WaitingView::ForSocket(s) => BindRequestView::Bind(planned(s.kind, self.backlog)),
            WaitingView::ForPlace(_, from, to) => if from == to {
                BindRequestView::Keep(to)
            } else {
                BindRequestView::Move(from, to)
            },
            WaitingView::ForNothing => BindRequestView::Finished,
        }
    }

    /// The binding before any socket is bound.
    pub open spec fn fresh(
        ports: Seq<Seq<char>>,
        paths: Seq<Seq<char>>,
        backlog: i32,
    ) -> BindingView {
        BindingView {
            ports,
            paths,
            backlog,
            listeners: Seq::empty(),
            waiting: WaitingView::ForNothing,
        }
    }

    /// The look-up that was waited for has settled on `a`.
    pub open spec fn at_address(self, a: SocketAddress) -> BindingView {
        BindingView {
            waiting: WaitingView::ForSocket(
                SpecView {
                    key: self.waiting->ForAddress_0,
                    kind: KindView::Tcp(a),
                    want_fd: self.waiting->ForAddress_1,
                },
            ),
            ..self
        }
    }

    /// The socket that was waited for has been bound at `fd`.
    pub open spec fn at_descriptor(self, fd: i32) -> BindingView {
        BindingView {
            waiting: WaitingView::ForPlace(
                self.waiting->ForSocket_0.key,
                fd,
                final_fd(self.waiting->ForSocket_0.want_fd, fd),
            ),
            ..self
        }
    }

    /// The socket that was waited for has its descriptor.
    pub open spec fn with_listener(self) -> BindingView {
        BindingView {
            listeners: self.listeners.push(
                ListenerView { key: self.waiting->ForPlace_0, fd: self.waiting->ForPlace_2 },
            ),
            ..self
        }
    }

    /// Whether the sockets bound so far are those of the first options, each under its key and at
    /// the descriptor asked for, and the wait is for the next one.
    pub open spec fn wf(self) -> bool {
        let n = self.listeners.len() as int;
        &&& n <= self.total()
        &&& forall|i: int|
            0 <= i < n ==> {
                &&& (#[trigger] self.listeners[i]).key == self.promise(i).0
                &&& self.promise(i).1 is Some ==> self.listeners[i].fd == self.promise(i).1->Some_0
            }
        &&& match self.waiting {
            WaitingView::ForAddress(hostport, want_fd) => n < self.ports.len() && self.promise(n)
                == (hostport, want_fd),
            WaitingView::ForSocket(s) => n < self.total() && self.promise(n) == (s.key, s.want_fd),
            WaitingView::ForPlace(key, from, to) => n < self.total() && self.promise(n).0 == key
                && to == final_fd(self.promise(n).1, from),
            WaitingView::ForNothing => n == self.total(),
        }
    }
}

/// A socket is never moved onto its own descriptor, which would close it.
pub proof fn law_no_socket_is_moved_onto_itself(b: BindingView)
    ensures
        b.request() matches BindRequestView::Move(from, to) ==> from != to,
{
}

fn fault_message(option: &str, raw: &str, fault: &str) -> (r: String)
    ensures
        r@ == option@ + " "@ + raw@ + ": "@ + fault@,
{
    let mut m = String::from_str(option);
    m.append(" ");
    m.append(raw);
    m.append(": ");
    m.append(fault);
    m
}

/// Begins to bind every `--port` and `--path` specification, in order.
pub fn bind_all(ports: Vec<String>, paths: Vec<String>, backlog: i32) -> (r: Result<
    Binding,
    String,
>)
    ensures
        ({
            let start = BindingView {
                ports: texts(ports@),
                paths: texts(paths@),
                backlog,
                listeners: Seq::empty(),
                waiting: WaitingView::ForNothing,
            };
            match r {
                Ok(b) => b@.wf() && start.opening() == Ok::<_, Seq<char>>(b@.waiting) && b@ == (
                BindingView { waiting: b@.waiting, ..start }),
                Err(m) => start.opening() == Err::<WaitingView, _>(m@),
            }
        }),
        ({
            let start = BindingView::fresh(texts(ports@), texts(paths@), backlog);
            match r {
                Ok(b) => b@ == (BindingView { waiting: start.opening()->Ok_0, ..start }),
                Err(m) => start.opening() == Err::<WaitingView, _>(m@),
            }
        }),
{
    let mut b = Binding {
        ports,
        paths,
        backlog,
        listeners: Vec::new(),
        waiting: Waiting::ForNothing,
    };
    assert(b@.listeners =~= Seq::<ListenerView>::empty());
    match b.open() {
        Ok(waiting) => {
            b.waiting = waiting;
            Ok(b)
        },
        Err(m) => Err(m),
    }
}

impl Binding {
    /// Turns to the next specification.
    fn open(&self) -> (r: Result<Waiting, String>)
        ensures
            match r {
                Ok(w) => self@.opening() == Ok::<_, Seq<char>>(w@),
                Err(m) => self@.opening() == Err::<WaitingView, _>(m@),
            },
    {
        let i: usize = self.listeners.len();
        if i < self.ports.len() {
            let raw = self.ports[i].as_str();
            assert(self@.ports[i as int] == raw@);
            match plan_port(raw) {
                Ok(PortPlan::Ready(s)) => Ok(Waiting::ForSocket(s)),
                Ok(PortPlan::Lookup(hostport, want_fd)) => Ok(
                    Waiting::ForAddress(hostport, want_fd),
                ),
                Err(e) => Err(fault_message("--port", raw, e.as_str())),
            }
        } else if i - self.ports.len() < self.paths.len() {
            let raw = self.paths[i - self.ports.len()].as_str();
            assert(self@.paths[i - self.ports.len()] == raw@);
            match parse_path(raw) {
                Ok(s) => Ok(Waiting::ForSocket(s)),
                Err(e) => Err(fault_message("--path", raw, e.as_str())),
            }
        } else {
            Ok(Waiting::ForNothing)
        }
    }

    /// The request that stands.
    pub fn request(&self) -> (r: BindRequest)
        ensures
            r@ == self@.request(),
    {
        match &self.waiting {
            Waiting::ForAddress(hostport, _) => BindRequest::Resolve(hostport.clone()),
            Waiting::ForSocket(s) => BindRequest::Bind(socket_plan(&s.kind, self.backlog)),
            Waiting::ForPlace(_, from, to) => {
                if *from == *to {
                    BindRequest::Keep(*to)
                } else {
                    BindRequest::Move(*from, *to)
                }
            },
            Waiting::ForNothing => BindRequest::Finished,
        }
    }

    /// A look-up has given `found`.
    pub fn resolved(self, found: &Resolution) -> (r: Result<Binding, String>)
        requires
            self@.wf(),
            self@.waiting is ForAddress,
        ensures
            ({
                let hostport = self@.waiting->ForAddress_0;
                let want_fd = self@.waiting->ForAddress_1;
                let raw = self@.ports[self@.listeners.len() as int];
                match r {
                    Ok(b) => {
                        &&& b@.wf()
                        &&& settled(hostport, found@) matches Ok(a) && b@ == (BindingView {
                            waiting: WaitingView::ForSocket(
                                SpecView { key: hostport, kind: KindView::Tcp(a), want_fd },
                            ),
                            ..self@
                        })
                    },
                    Err(m) => settled(hostport, found@) matches Err(e) && m@ == fault_text(
                        "--port"@,
                        raw,
                        e,
                    ),
                }
            }),
            r matches Ok(b) ==> b@ == self@.at_address(
                settled(self@.waiting->ForAddress_0, found@)->Ok_0,
            ),
    {
        let mut b = self;
        let i: usize = b.listeners.len();
        match b.waiting {
            Waiting::ForAddress(hostport, want_fd) => match resolve(hostport.as_str(), found) {
                Ok(a) => {
                    b.waiting =
                    Waiting::ForSocket(Spec { key: hostport, kind: Kind::Tcp(a), want_fd });
                    Ok(b)
                },
                Err(e) => {
                    assert(self@.ports[i as int] == b.ports@[i as int]@);
                    Err(fault_message("--port", b.ports[i].as_str(), e.as_str()))
                },
            },
            _ => Ok(b),
        }
    }

    /// The socket has been bound, at the descriptor `fd`.
    pub fn bound(self, fd: i32) -> (b: Binding)
        requires
            self@.wf(),
            self@.waiting is ForSocket,
        ensures
            b@.wf(),
            b@ == (BindingView {
                waiting: WaitingView::ForPlace(
                    self@.waiting->ForSocket_0.key,
                    fd,
                    final_fd(self@.waiting->ForSocket_0.want_fd, fd),
                ),
                ..self@
            }),
            b@ == self@.at_descriptor(fd),
    {
        let mut b = self;
        match b.waiting {
            Waiting::ForSocket(s) => {
                let to = match s.want_fd {
                    Some(want) => want,
                    None => fd,
                };
                b.waiting = Waiting::ForPlace(s.key, fd, to);
                b
            },
            _ => b,
        }
    }

    /// The socket has its descriptor, and is kept open in workers.
    pub fn placed(self) -> (r: Result<Binding, String>)
        requires
            self@.wf(),
            self@.waiting is ForPlace,
        ensures
            ({
                let more = BindingView {
                    listeners: self@.listeners.push(
                        ListenerView {
                            key: self@.waiting->ForPlace_0,
                            fd: self@.waiting->ForPlace_2,
                        },
                    ),
                    ..self@
                };
                match r {
                    Ok(b) => b@.wf() && more.opening() == Ok::<_, Seq<char>>(b@.waiting) && b@ == (
                    BindingView { waiting: b@.waiting, ..more }),
                    Err(m) => more.opening() == Err::<WaitingView, _>(m@),
                }
            }),
            match r {
                Ok(b) => b@ == (BindingView {
                    waiting: self@.with_listener().opening()->Ok_0,
                    ..self@.with_listener()
                }),
                Err(m) => self@.with_listener().opening() == Err::<WaitingView, _>(m@),
            },
    {
        let mut b = self;
        match b.waiting {
            Waiting::ForPlace(key, from, to) => {
                let ghost listener = Listener { key, fd: to };
                b.listeners.push(Listener { key, fd: to });
                b.waiting = Waiting::ForNothing;
                assert(b@.listeners =~= self@.listeners.push(listener@));
                match b.open() {
                    Ok(waiting) => {
                        b.waiting = waiting;
                        Ok(b)
                    },
                    Err(m) => Err(m),
                }
            },
            _ => Ok(b),
        }
    }

    /// The listeners, in the order of the options, once all sockets are bound: each under the key
    /// that its option names, and at the descriptor that it asks for, if it asks for one.
    pub fn into_listeners(self) -> (r: Vec<Listener>)
        requires
            self@.wf(),
            self@.waiting is ForNothing,
        ensures
            listener_views(r@) == self@.listeners,
            r@.len() == self@.total(),
            forall|i: int|
                0 <= i < r@.len() ==> {
                    &&& (#[trigger] r@[i]).key@ == self@.promise(i).0
                    &&& self@.promise(i).1 is Some ==> r@[i].fd == self@.promise(i).1->Some_0
                },
    {
        proof {
            assert forall|i: int| 0 <= i < self.listeners@.len() implies {
                &&& (#[trigger] self.listeners@[i]).key@ == self@.promise(i).0
                &&& self@.promise(i).1 is Some ==> self.listeners@[i].fd
                    == self@.promise(i).1->Some_0
            } by {
                assert(self@.listeners[i] == self.listeners@[i]@);
            }
        }
        self.listeners
    }
}

/// A socket is bound where its kind says, over the transport of its kind. It listens with the
/// backlog unless it is a UDP socket; an internet address may be used again at once; and a TCP
/// socket of IPv6 takes no IPv4 connections.
pub proof fn law_socket_is_made_as_its_kind_asks(kind: KindView, backlog: i32)
    ensures
        kind matches KindView::Tcp(a) ==> planned(kind, backlog).endpoint == EndpointView::Inet(a)
            && planned(kind, backlog).transport is Tcp,
        kind matches KindView::Udp(a) ==> planned(kind, backlog).endpoint == EndpointView::Inet(a)
            && planned(kind, backlog).transport is Udp,
        kind matches KindView::Unix(path) ==> planned(kind, backlog).endpoint
            == EndpointView::Unix(path) && planned(kind, backlog).transport is Unix,
        planned(kind, backlog).backlog == (if kind is Udp {
            None
        } else {
            Some(backlog)
        }),
        planned(kind, backlog).reuse_address <==> kind !is Unix,
        planned(kind, backlog).only_v6 <==> (kind matches KindView::Tcp(a) && a is V6),
{
}

/// A socket that waits to be bound is asked for as its option says; bound at `fd`, it is moved to
/// the descriptor that the option asks for, if it asks for another, and kept at `fd` if not; and
/// then it is the next listener, under its key and at that descriptor.
pub proof fn law_course_of_one_socket(b: BindingView, s: SpecView, fd: i32)
    requires
        b.waiting == WaitingView::ForSocket(s),
    ensures
        b.request() == BindRequestView::Bind(planned(s.kind, b.backlog)),
        s.want_fd is None ==> b.at_descriptor(fd).request() == BindRequestView::Keep(fd)
            && b.at_descriptor(fd).with_listener().listeners == b.listeners.push(
            ListenerView { key: s.key, fd },
        ),
        s.want_fd matches Some(want) ==> b.at_descriptor(fd).request() == (if want == fd {
            BindRequestView::Keep(fd)
        } else {
            BindRequestView::Move(fd, want)
        }) && b.at_descriptor(fd).with_listener().listeners == b.listeners.push(
            ListenerView { key: s.key, fd: want },
        ),
{
}

/// A host name that waits to be looked up is asked for as it is written, and the address that is
/// found is bound over TCP, under that name.
pub proof fn law_course_of_a_look_up(
    b: BindingView,
    hostport: Seq<char>,
    want_fd: Option<i32>,
    a: SocketAddress,
)
    requires
        b.waiting == WaitingView::ForAddress(hostport, want_fd),
    ensures
        b.request() == BindRequestView::Resolve(hostport),
        b.at_address(a).request() == BindRequestView::Bind(
            planned(KindView::Tcp(a), b.backlog),
        ),
        b.at_address(a).waiting == WaitingView::ForSocket(
            SpecView { key: hostport, kind: KindView::Tcp(a), want_fd },
        ),
{
}

/// Options are taken one after the other, all of `--port` first: the next socket is that of the
/// option behind those whose sockets are bound, whatever stands elsewhere, and when every option
/// has its socket nothing more is waited for. A fault names the option and its value.
pub proof fn law_options_are_taken_in_order(b: BindingView, port: nat, path: Seq<char>)
    requires
        port <= u16::MAX,
        path.len() > 0,
        !path.contains('='),
    ensures
        ({
            let n = b.listeners.len() as int;
            let k = b.ports.len() as int;
            let opening = b.opening();
            &&& n < k && b.ports[n] == decimal(port) ==> opening == Ok::<_, Seq<char>>(
                WaitingView::ForSocket(
                    SpecView {
                        key: "0.0.0.0:"@ + decimal(port),
                        kind: KindView::Tcp(SocketAddress::V4 { ip: 0, port: port as u16 }),
                        want_fd: None,
                    },
                ),
            )
            &&& k <= n < k + b.paths.len() && b.paths[n - k] == path ==> opening == Ok::<
                _,
                Seq<char>,
            >(
                WaitingView::ForSocket(
                    SpecView { key: path, kind: KindView::Unix(path), want_fd: None },
                ),
            )
            &&& n >= k + b.paths.len() ==> opening == Ok::<_, Seq<char>>(WaitingView::ForNothing)
            &&& n < k + b.paths.len() ==> opening != Ok::<_, Seq<char>>(WaitingView::ForNothing)
            &&& n < k && opening is Err ==> ("--port "@ + b.ports[n] + ": "@).is_prefix_of(
                opening->Err_0,
            )
            &&& k <= n && opening is Err ==> ("--path "@ + b.paths[n - k] + ": "@).is_prefix_of(
                opening->Err_0,
            )
        }),
{
    reveal_strlit("--port ");
    reveal_strlit("--path ");
    reveal_strlit("--port");
    reveal_strlit("--path");
    reveal_strlit(" ");
    law_bare_port_binds_any_address(port);
    law_path_is_its_key(path, 0);
    assert("--port"@ + " "@ =~= "--port "@);
    assert("--path"@ + " "@ =~= "--path "@);
    let n = b.listeners.len() as int;
    let k = b.ports.len() as int;
    if b.opening() is Err {
        let m = b.opening()->Err_0;
        if n < k {
            let head = "--port "@ + b.ports[n] + ": "@;
            assert(m.take(head.len() as int) =~= head);
        } else {
            let head = "--path "@ + b.paths[n - k] + ": "@;
            assert(m.take(head.len() as int) =~= head);
        }
    }
}

/// When all is bound, there is one listener for each option, in their order, those of `--port`
/// first: a bare port under `0.0.0.0` and its number, a path under itself, each at the descriptor
/// that its option asks for.
pub proof fn law_every_option_has_its_listener(
    b: BindingView,
    i: int,
    port: nat,
    path: Seq<char>,
    fd: nat,
)
    requires
        b.wf(),
        b.request() is Finished,
        port <= u16::MAX,
        path.len() > 0,
        !path.contains('='),
        fd <= i32::MAX,
    ensures
        b.listeners.len() == b.ports.len() + b.paths.len(),
        0 <= i < b.ports.len() && b.ports[i] == decimal(port) ==> b.listeners[i].key
            == "0.0.0.0:"@ + decimal(port),
        0 <= i < b.ports.len() && b.ports[i] == decimal(port) + seq!['='] + decimal(fd)
            ==> b.listeners[i] == (ListenerView {
            key: "0.0.0.0:"@ + decimal(port),
            fd: fd as i32,
        }),
        0 <= i < b.paths.len() && b.paths[i] == path ==> b.listeners[b.ports.len() + i].key
            == path,
        0 <= i < b.paths.len() && b.paths[i] == path + seq!['='] + decimal(fd)
            ==> b.listeners[b.ports.len() + i] == (ListenerView { key: path, fd: fd as i32 }),
{
    law_bare_port_binds_any_address(port);
    law_path_is_its_key(path, fd);
    lemma_digits(port);
    law_port_with_descriptor(decimal(port), fd);
    if 0 <= i < b.ports.len() {
        assert(b.listeners[i].key == b.promise(i).0);
    }
    if 0 <= i < b.paths.len() {
        assert(b.listeners[b.ports.len() + i].key == b.promise(b.ports.len() + i).0);
    }
}

} // verus!
