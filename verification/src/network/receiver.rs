//! The decisions of the receiver: what state the receive loop is in, and
//! whether receiving may start or stop.
use crate::text::push_str;
use vstd::prelude::*;

verus! {

/// The state of the receive loop.
#[derive(Clone, Copy, PartialEq, Eq, Structural)]
pub enum ReceiveLoopStatus {
    NotStarted,
    Receiving,
    ShuttingDown,
}

/// What can go wrong when receiving starts. The text is the message of the
/// underlying error.
pub enum Error {
    /// The receive loop was already started.
    AlreadyReceiving,
    /// The connection could not be cloned for the receive loop.
    ConnectionClone(String),
    /// There is no established connection to receive from.
    NoConnection,
}

/// The message of a receive error, as it is logged.
pub open spec fn error_message(e: Error) -> Seq<char> {
    match e {
        Error::AlreadyReceiving => "Receive loop was already started"@,
        Error::ConnectionClone(m) => "Unable to clone connection: "@ + m@,
        Error::NoConnection => "Unable to start receiving without an established connection"@,
    }
}

impl Error {
    /// The message logged for this error.
    pub fn message(&self) -> (r: String)
        ensures
            r@ == error_message(*self),
    {
        let mut r = String::new();
        match self {
            Error::AlreadyReceiving => {
                push_str(&mut r, "Receive loop was already started");
            },
            Error::ConnectionClone(m) => {
                push_str(&mut r, "Unable to clone connection: ");
                push_str(&mut r, m.as_str());
            },
            Error::NoConnection => {
                push_str(&mut r, "Unable to start receiving without an established connection");
            },
        }
        r
    }
}

/// The state of the receive loop, from whether one was started (and not
/// stopped by the receiver since) and whether it has stopped by itself.
pub fn receive_loop_status(started: bool, stopped: bool) -> (r: ReceiveLoopStatus)
    ensures
        !started ==> r == ReceiveLoopStatus::NotStarted,
        started && stopped ==> r == ReceiveLoopStatus::ShuttingDown,
        started && !stopped ==> r == ReceiveLoopStatus::Receiving,
{
    if started {
        if stopped {
            ReceiveLoopStatus::ShuttingDown
        } else {
            ReceiveLoopStatus::Receiving
        }
    } else {
        ReceiveLoopStatus::NotStarted
    }
}

/// Whether receiving may start: only when no receive loop was started. On
/// `Ok` it gives the message to log while waiting for the first file.
pub fn check_can_start_receiving(status: ReceiveLoopStatus) -> (r: Result<&'static str, Error>)
    ensures
        r is Ok <==> status == ReceiveLoopStatus::NotStarted,
        r matches Ok(m) ==> m@ == "waiting to receive file..."@,
        r matches Err(e) ==> e is AlreadyReceiving,
{
    match status {
        ReceiveLoopStatus::NotStarted => Ok("waiting to receive file..."),
        _ => Err(Error::AlreadyReceiving),
    }
}

/// Whether there is an established connection to receive from.
pub fn check_connection(holds_connection: bool) -> (r: Result<(), Error>)
    ensures
        r is Ok <==> holds_connection,
        r matches Err(e) ==> e is NoConnection,
{
    if holds_connection {
        Ok(())
    } else {
        Err(Error::NoConnection)
    }
}

/// The message logged when stopping is asked for before receiving started,
/// or `None` when the started loop may be stopped.
pub fn stop_refusal(started: bool) -> (r: Option<&'static str>)
    ensures
        started <==> r is None,
        r matches Some(m) ==> m@ == "receiving has not yet started: unable to stop"@,
{
    if started {
        None
    } else {
        Some("receiving has not yet started: unable to stop")
    }
}

} // verus!
