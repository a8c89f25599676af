//! The decisions of the connection control: when a connection may be
//! started, accepted or closed, and what status follows.
//!
//! Establishing and closing a connection are network work done by the
//! caller: `connect` and `accept` decide whether to start it, and
//! `connect_finished` and `accept_finished` record how it ended and what the
//! settings remember of it; `disconnect` decides whether to
//! shut the connection down, and `disconnect_finished` records the outcome.
use crate::text::push_str;
use vstd::prelude::*;
use vstd::string::to_string_from_display_ensures;

verus! {

/// Settings key under which the last remote endpoint connected to is kept.
pub const LAST_ENDPOINT_KEY: &'static str = "last_endpoint";

/// Settings key under which the last port a connection was accepted on is
/// kept.
pub const LAST_ACCEPTED_PORT: &'static str = "last_port";

/// The state of the connection.
#[derive(Clone, Copy, PartialEq, Eq, Structural)]
pub enum ConnectionStatus {
    Connected,
    Disconnected,
    Connecting,
    Accepting,
}

/// What can go wrong with the connection. The texts are the messages of the
/// underlying errors.
pub enum Error {
    /// A socket operation failed.
    IO(std::io::Error),
    /// The encrypted connection failed.
    Connection(String),
    /// The key exchange of the encrypted connection failed.
    HandshakeError(String),
    /// A connection was asked for while one is established or under way.
    AlreadyConnected,
    /// A disconnection was asked for while no connection is established.
    AlreadyDisconnected,
}

/// The message of a connection error, as it is logged.
pub open spec fn error_message(e: Error, text: Seq<char>) -> bool {
    match e {
        Error::IO(io) => exists|s: String|
            to_string_from_display_ensures::<std::io::Error>(&io, s) && text == "IO error: "@ + s@,
        Error::Connection(m) => text == "Connection error: "@ + m@,
        Error::HandshakeError(m) => text == "Handshake error: "@ + m@,
        Error::AlreadyConnected => text == "Could not connect since connection is already established."@,
        Error::AlreadyDisconnected => text
            == "Could not disconnect since no connection is established."@,
    }
}

impl Error {
    /// The message logged for this error.
    pub fn message(&self) -> (r: String)
        ensures
            error_message(*self, r@),
    {
        let mut r = String::new();
        match self {
            Error::IO(io) => {
                let text = io.to_string();
                push_str(&mut r, "IO error: ");
                push_str(&mut r, text.as_str());
            },
            Error::Connection(m) => {
                push_str(&mut r, "Connection error: ");
                push_str(&mut r, m.as_str());
            },
            Error::HandshakeError(m) => {
                push_str(&mut r, "Handshake error: ");
                push_str(&mut r, m.as_str());
            },
            Error::AlreadyConnected => {
                push_str(&mut r, "Could not connect since connection is already established.");
            },
            Error::AlreadyDisconnected => {
                push_str(&mut r, "Could not disconnect since no connection is established.");
            },
        }
        r
    }
}

/// The text the connection view shows for a status.
pub fn connection_status_as_str(status: ConnectionStatus) -> (r: &'static str)
    ensures
        status == ConnectionStatus::Connected ==> r@ == "Connected"@,
        status == ConnectionStatus::Disconnected ==> r@ == "Disconnected"@,
        status == ConnectionStatus::Connecting ==> r@ == "Connecting"@,
        status == ConnectionStatus::Accepting ==> r@ == "Waiting for remote to connect"@,
{
    match status {
        ConnectionStatus::Connected => "Connected",
        ConnectionStatus::Disconnected => "Disconnected",
        ConnectionStatus::Connecting => "Connecting",
        ConnectionStatus::Accepting => "Waiting for remote to connect",
    }
}

/// A value to store in the settings under a key.
pub struct SettingsWrite {
    pub key: &'static str,
    pub value: String,
}

/// The state of a connection control: its status, and whether it holds an
/// established connection.
pub struct ControlState {
    pub status: ConnectionStatus,
    pub holds_connection: bool,
}

/// A connected control always holds a connection.
pub open spec fn consistent(s: ControlState) -> bool {
    s.status == ConnectionStatus::Connected ==> s.holds_connection
}

/// The state after a request to connect: from `Disconnected` the control
/// starts connecting; in any other status the request is refused.
pub open spec fn after_connect(s: ControlState) -> ControlState {
    if s.status == ConnectionStatus::Disconnected {
        ControlState { status: ConnectionStatus::Connecting, ..s }
    } else {
        s
    }
}

/// The state after a request to accept a connection: refused while
/// connected, otherwise the control waits for the remote.
pub open spec fn after_accept(s: ControlState) -> ControlState {
    if s.status == ConnectionStatus::Connected {
        s
    } else {
        ControlState { status: ConnectionStatus::Accepting, ..s }
    }
}

/// The state after a connection attempt ended: connected with the new
/// connection on success, disconnected on failure.
pub open spec fn after_connect_finished(s: ControlState, succeeded: bool) -> ControlState {
    if succeeded {
        ControlState { status: ConnectionStatus::Connected, holds_connection: true }
    } else {
        ControlState { status: ConnectionStatus::Disconnected, ..s }
    }
}

/// Whether a request to disconnect goes ahead: only when not disconnected
/// and holding a connection.
pub open spec fn may_disconnect(s: ControlState) -> bool {
    s.status != ConnectionStatus::Disconnected && s.holds_connection
}

/// The state after shutting the connection down: disconnected without a
/// connection on success, unchanged on failure.
pub open spec fn after_disconnect_finished(s: ControlState, succeeded: bool) -> ControlState {
    if succeeded {
        ControlState { status: ConnectionStatus::Disconnected, holds_connection: false }
    } else {
        s
    }
}

/// Tracks the status of the connection and whether one is held.
pub struct ConnectionControl {
    status: ConnectionStatus,
    holds_connection: bool,
}

impl View for ConnectionControl {
    type V = ControlState;

    closed spec fn view(&self) -> ControlState {
        ControlState { status: self.status, holds_connection: self.holds_connection }
    }
}

impl ConnectionControl {
    #[verifier::type_invariant]
    spec fn is_consistent(self) -> bool {
        consistent(self@)
    }

    /// A control that is disconnected and holds no connection.
    pub fn new() -> (r: Self)
        ensures
            r@ == (ControlState { status: ConnectionStatus::Disconnected, holds_connection: false }),
    {
        Self { status: ConnectionStatus::Disconnected, holds_connection: false }
    }

    /// The current status.
    pub fn get_status(&self) -> (r: ConnectionStatus)
        ensures
            r == self@.status,
    {
        self.status
    }

    /// Whether a connection is held; always so when connected.
    pub fn has_connection(&self) -> (r: bool)
        ensures
            r == self@.holds_connection,
            consistent(self@),
    {
        proof {
            use_type_invariant(self);
        }
        self.holds_connection
    }

    /// Whether the status is `Connected`.
    pub fn is_connected(&self) -> (r: bool)
        ensures
            r == (self@.status == ConnectionStatus::Connected),
    {
        self.get_status() == ConnectionStatus::Connected
    }

    /// Whether the status is `Disconnected`.
    pub fn is_disconnected(&self) -> (r: bool)
        ensures
            r == (self@.status == ConnectionStatus::Disconnected),
    {
        self.get_status() == ConnectionStatus::Disconnected
    }

    /// A request to connect to a remote: `Ok` when the caller should start
    /// connecting (the status is then `Connecting`), `AlreadyConnected` when
    /// the control is not disconnected.
    pub fn connect(&mut self) -> (r: Result<(), Error>)
        ensures
            final(self)@ == after_connect(old(self)@),
            r is Ok <==> old(self)@.status == ConnectionStatus::Disconnected,
            r matches Err(e) ==> e is AlreadyConnected,
    {
        if !self.is_disconnected() {
            return Err(Error::AlreadyConnected);
        }
        self.status = ConnectionStatus::Connecting;
        Ok(())
    }

    /// A request to accept a connection from a remote: `Ok` when the caller
    /// should start waiting for it (the status is then `Accepting`),
    /// `AlreadyConnected` when connected.
    pub fn accept(&mut self) -> (r: Result<(), Error>)
        ensures
            final(self)@ == after_accept(old(self)@),
            r is Ok <==> old(self)@.status != ConnectionStatus::Connected,
            r matches Err(e) ==> e is AlreadyConnected,
    {
        if self.is_connected() {
            return Err(Error::AlreadyConnected);
        }
        self.status = ConnectionStatus::Accepting;
        Ok(())
    }

    /// Records how an attempt to connect to `address` ended. On success it
    /// gives the settings write that remembers the address under
    /// `LAST_ENDPOINT_KEY`; on failure it hands the error back for the log.
    pub fn connect_finished(&mut self, outcome: Result<(), Error>, address: String) -> (r: Result<
        SettingsWrite,
        Error,
    >)
        ensures
            final(self)@ == after_connect_finished(old(self)@, outcome is Ok),
            r is Ok <==> outcome is Ok,
            r matches Ok(w) ==> w.key == LAST_ENDPOINT_KEY && w.value@ == address@,
            outcome matches Err(e) ==> r == Err::<SettingsWrite, Error>(e),
    {
        self.attempt_finished(outcome, LAST_ENDPOINT_KEY, address)
    }

    /// Records how an attempt to accept a connection on `port` ended. On
    /// success it gives the settings write that remembers the port under
    /// `LAST_ACCEPTED_PORT`; on failure it hands the error back for the log.
    pub fn accept_finished(&mut self, outcome: Result<(), Error>, port: String) -> (r: Result<
        SettingsWrite,
        Error,
    >)
        ensures
            final(self)@ == after_connect_finished(old(self)@, outcome is Ok),
            r is Ok <==> outcome is Ok,
            r matches Ok(w) ==> w.key == LAST_ACCEPTED_PORT && w.value@ == port@,
            outcome matches Err(e) ==> r == Err::<SettingsWrite, Error>(e),
    {
        self.attempt_finished(outcome, LAST_ACCEPTED_PORT, port)
    }

    /// Records how a connection attempt ended; on success the write stores
    /// `value` under `key`.
    fn attempt_finished(&mut self, outcome: Result<(), Error>, key: &'static str, value: String) -> (r:
        Result<SettingsWrite, Error>)
        ensures
            final(self)@ == after_connect_finished(old(self)@, outcome is Ok),
            r is Ok <==> outcome is Ok,
            r matches Ok(w) ==> w.key == key && w.value@ == value@,
            outcome matches Err(e) ==> r == Err::<SettingsWrite, Error>(e),
    {
        match outcome {
            Ok(()) => {
                self.holds_connection = true;
                self.status = ConnectionStatus::Connected;
                Ok(SettingsWrite { key, value })
            },
            Err(e) => {
                self.status = ConnectionStatus::Disconnected;
                Err(e)
            },
        }
    }

    /// A request to disconnect: `Ok` when the caller should shut the held
    /// connection down, `AlreadyDisconnected` when disconnected or holding
    /// no connection. The state does not change.
    pub fn disconnect(&self) -> (r: Result<(), Error>)
        ensures
            r is Ok <==> may_disconnect(self@),
            r matches Err(e) ==> e is AlreadyDisconnected,
    {
        if self.is_disconnected() {
            return Err(Error::AlreadyDisconnected);
        }
        if self.holds_connection {
            Ok(())
        } else {
            Err(Error::AlreadyDisconnected)
        }
    }

    /// Records how shutting the connection down ended and hands its error
    /// back for the log.
    pub fn disconnect_finished(&mut self, outcome: Result<(), Error>) -> (r: Result<(), Error>)
        ensures
            final(self)@ == after_disconnect_finished(old(self)@, outcome is Ok),
            r == outcome,
    {
        if outcome.is_ok() {
            self.status = ConnectionStatus::Disconnected;
            self.holds_connection = false;
        }
        outcome
    }
}

/// Every operation keeps a connected control holding a connection.
pub proof fn law_operations_keep_consistency(s: ControlState, succeeded: bool)
    requires
        consistent(s),
    ensures
        consistent(after_connect(s)),
        consistent(after_accept(s)),
        consistent(after_connect_finished(s, succeeded)),
        consistent(after_disconnect_finished(s, succeeded)),
{
}

/// Refused requests change nothing: a connect request while not
/// disconnected, and an accept request while connected.
pub proof fn law_refused_requests_change_nothing(s: ControlState)
    ensures
        s.status != ConnectionStatus::Disconnected ==> after_connect(s) == s,
        s.status == ConnectionStatus::Connected ==> after_accept(s) == s,
{
}

/// From a disconnected control, a connect request followed by a successful
/// attempt leaves the control connected; a failed attempt leaves it
/// disconnected again.
pub proof fn law_connect_then_finish(s: ControlState)
    requires
        s.status == ConnectionStatus::Disconnected,
    ensures
        after_connect_finished(after_connect(s), true).status == ConnectionStatus::Connected,
        after_connect_finished(after_connect(s), true).holds_connection,
        after_connect_finished(after_connect(s), false).status == ConnectionStatus::Disconnected,
{
}

/// A connected control may disconnect, and a successful shutdown leaves it
/// disconnected without a connection, so that it may connect again.
pub proof fn law_disconnect_after_connected(s: ControlState)
    requires
        consistent(s),
        s.status == ConnectionStatus::Connected,
    ensures
        may_disconnect(s),
        after_disconnect_finished(s, true).status == ConnectionStatus::Disconnected,
        !after_disconnect_finished(s, true).holds_connection,
        !may_disconnect(after_disconnect_finished(s, true)),
        after_connect(after_disconnect_finished(s, true)).status == ConnectionStatus::Connecting,
{
}

/// The status changes a connection control makes: a request starts an
/// attempt from `Disconnected` (connect or accept), an accept request also
/// replaces an attempt under way, an attempt under way ends `Connected` or
/// `Disconnected`, and a connected control is disconnected.
pub open spec fn allowed_status_change(from: ConnectionStatus, to: ConnectionStatus) -> bool {
    ||| from == to
    ||| from == ConnectionStatus::Disconnected && to == ConnectionStatus::Connecting
    ||| from != ConnectionStatus::Connected && to == ConnectionStatus::Accepting
    ||| (from == ConnectionStatus::Connecting || from == ConnectionStatus::Accepting) && (to
        == ConnectionStatus::Connected || to == ConnectionStatus::Disconnected)
    ||| from == ConnectionStatus::Connected && to == ConnectionStatus::Disconnected
}

/// Every status change is an allowed one: requests change the status only
/// as `allowed_status_change` lists, the end of an attempt under way leaves
/// it `Connected` or `Disconnected`, and a shutdown that was allowed leaves
/// it `Disconnected` or unchanged.
pub proof fn law_status_changes(s: ControlState, succeeded: bool)
    requires
        consistent(s),
    ensures
        allowed_status_change(s.status, after_connect(s).status),
        allowed_status_change(s.status, after_accept(s).status),
        s.status == ConnectionStatus::Connecting || s.status == ConnectionStatus::Accepting
            ==> allowed_status_change(s.status, after_connect_finished(s, succeeded).status),
        may_disconnect(s) ==> allowed_status_change(
            s.status,
            after_disconnect_finished(s, succeeded).status,
        ),
{
}

/// A settled control: no attempt under way, and connected exactly when it
/// holds a connection.
pub open spec fn settled(s: ControlState) -> bool {
    &&& s.status == ConnectionStatus::Connected || s.status == ConnectionStatus::Disconnected
    &&& s.status == ConnectionStatus::Connected <==> s.holds_connection
}

/// Used one request at a time (each attempt ends before the next request),
/// a settled control stays settled: after a connect or accept request and
/// the end of its attempt, after a refused request, and after a disconnect
/// request and its shutdown.
pub proof fn law_one_request_at_a_time_stays_settled(s: ControlState, succeeded: bool)
    requires
        settled(s),
    ensures
        s.status == ConnectionStatus::Disconnected ==> settled(
            after_connect_finished(after_connect(s), succeeded),
        ) && settled(after_connect_finished(after_accept(s), succeeded)),
        s.status == ConnectionStatus::Connected ==> after_connect(s) == s && after_accept(s) == s,
        may_disconnect(s) ==> settled(after_disconnect_finished(s, succeeded)),
        !may_disconnect(s) ==> s.status == ConnectionStatus::Disconnected && !s.holds_connection,
{
}

} // verus!
