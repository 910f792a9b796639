//! The two runtime modes: through the daemon, or without it.
use vstd::prelude::*;
use vstd::string::*;

verus! {

/// How the attempt to reach the daemon ended.
#[derive(Clone, Copy, Debug, PartialEq, Eq, Structural)]
pub enum Connection {
    /// The daemon answered.
    Connected,
    /// No daemon is listening on the socket.
    ConnectionFailed,
    /// Any other error.
    Failed,
}

/// How a subcommand goes on.
#[derive(Clone, Copy, Debug, PartialEq, Eq, Structural)]
pub enum Mode {
    /// Through the daemon.
    Daemon,
    /// Without a daemon.
    Local,
    /// With the error, in the context that `connection_context` gives.
    Fail,
}

/// The mode that an attempt to reach the daemon leads to: only where no daemon is
/// listening does a subcommand go on without it.
pub fn runtime_mode(connection: Connection) -> (r: Mode)
    ensures
        r == (match connection {
            Connection::Connected => Mode::Daemon,
            Connection::ConnectionFailed => Mode::Local,
            Connection::Failed => Mode::Fail,
        }),
{
    match connection {
        Connection::Connected => Mode::Daemon,
        Connection::ConnectionFailed => Mode::Local,
        Connection::Failed => Mode::Fail,
    }
}

/// The context of an error that keeps a subcommand from reaching the daemon.
pub fn connection_context() -> (r: &'static str)
    ensures
        r@ == "unexpected error connecting to daemon socket"@,
{
    "unexpected error connecting to daemon socket"
}

} // verus!
