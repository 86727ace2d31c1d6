//! A superdaemon for hot-deploying server programs, and its client library.
//!
//! The superdaemon binds listening sockets on behalf of a worker program and hands them down to the
//! worker through the environment. When it receives `SIGHUP` it spawns a fresh generation of the
//! worker sharing the very same sockets and, once the new generation is up, retires the old one:
//! hot deploys with zero dropped connections.
//!
//! This crate holds what the superdaemon decides and computes, with proofs. What it does to the
//! system stands around it, in the `start_server` program, which performs the requests of the
//! machines here and tells them what came of each:
//!
//! * [`options`] reads the command line;
//! * [`port`] reads `--port` and `--path`, and [`bind`] leads through the binding of the sockets;
//! * [`setup`] orders the steps to the first worker, [`launch`] plans the start of a worker;
//! * [`server`] supervises the worker generations; [`guarantees`] says what holds of it, and
//!   [`course`] what it does when;
//! * [`notices`] puts into words what it does;
//! * [`status`] writes and reads the status file and the pid file;
//! * [`control`] leads through `--restart` and `--stop`;
//! * [`worker`] is the worker's side: it recovers the sockets and the generation.
use vstd::prelude::*;

pub mod bind;
pub mod control;
pub mod course;
pub mod guarantees;
pub mod launch;
pub mod notices;
pub mod number;
pub mod options;
pub mod order;
pub mod outside;
pub mod port;
pub mod server;
pub mod setup;
pub mod signals;
pub mod status;
pub mod text;
pub mod worker;

pub use control::{restart_server, stop_server};
pub use options::{Action, Options};
pub use server::start_server;
pub use worker::{generation, server_ports, Error};

use options::{parse, parsed, Refusal, USAGE};
use outside::signal_named;
use text::texts;

verus! {

/// The version of the `start_server` program.
pub const VERSION: &'static str = "0.1.0";

/// The environment variable through which listening sockets are passed to workers.
pub const PORT_ENV: &'static str = "SERVER_STARTER_PORT";

/// The environment variable holding the (monotonically increasing) worker generation.
pub const GENERATION_ENV: &'static str = "SERVER_STARTER_GENERATION";

/// Parses `start_server` command-line arguments (excluding the program name).
///
/// On success returns the resolved [`Options`]; on failure a human-readable error message suitable
/// for printing to the user.
pub fn parse_args(args: &[String]) -> (r: Result<Options, String>)
    ensures
        match r {
            Ok(opts) => parsed(texts(args@)) == Ok::<_, Refusal>(opts@),
            Err(message) => parsed(texts(args@)) matches Err(refusal) && message@
                == refusal.text() && refusal.is_due(),
        },
        signal_named("SIGTERM"@) is Some,
{
    parse(args)
}

/// The `--help` usage text for the `start_server` command.
pub fn usage() -> (r: &'static str)
    ensures
        r@ == USAGE@,
{
    USAGE
}

} // verus!
