use xs_file_transfer::network::connection_control::{
    connection_status_as_str, ConnectionControl, ConnectionStatus, Error, LAST_ACCEPTED_PORT,
    LAST_ENDPOINT_KEY,
};

#[test]
fn new_control_is_disconnected() {
    let c = ConnectionControl::new();
    assert!(c.get_status() == ConnectionStatus::Disconnected);
    assert!(c.is_disconnected());
    assert!(!c.is_connected());
    assert!(!c.has_connection());
}

#[test]
fn connect_then_success_is_connected() {
    let mut c = ConnectionControl::new();
    assert!(c.connect().is_ok());
    assert!(c.get_status() == ConnectionStatus::Connecting);
    assert!(c.connect_finished(Ok(()), "127.0.0.1:4000".to_string()).is_ok());
    assert!(c.is_connected());
    assert!(c.has_connection());
}

#[test]
fn failed_attempt_is_disconnected_and_handed_back() {
    let mut c = ConnectionControl::new();
    assert!(c.connect().is_ok());
    let r = c.connect_finished(Err(Error::HandshakeError("bad key".to_string())), "127.0.0.1:4000".to_string());
    assert!(matches!(r, Err(Error::HandshakeError(m)) if m == "bad key"));
    assert!(c.is_disconnected());
}

#[test]
fn connect_refused_unless_disconnected() {
    let mut c = ConnectionControl::new();
    assert!(c.accept().is_ok());
    assert!(matches!(c.connect(), Err(Error::AlreadyConnected)));
    assert!(c.get_status() == ConnectionStatus::Accepting);
}

#[test]
fn accept_refused_only_when_connected() {
    let mut c = ConnectionControl::new();
    assert!(c.connect().is_ok());
    assert!(c.accept().is_ok());
    assert!(c.get_status() == ConnectionStatus::Accepting);
    assert!(c.connect_finished(Ok(()), "127.0.0.1:4000".to_string()).is_ok());
    assert!(matches!(c.accept(), Err(Error::AlreadyConnected)));
    assert!(c.is_connected());
}

#[test]
fn disconnect_refused_when_disconnected_or_without_connection() {
    let mut c = ConnectionControl::new();
    assert!(matches!(c.disconnect(), Err(Error::AlreadyDisconnected)));
    assert!(c.connect().is_ok());
    assert!(matches!(c.disconnect(), Err(Error::AlreadyDisconnected)));
}

#[test]
fn disconnect_after_connected() {
    let mut c = ConnectionControl::new();
    assert!(c.connect().is_ok());
    assert!(c.connect_finished(Ok(()), "127.0.0.1:4000".to_string()).is_ok());
    assert!(c.disconnect().is_ok());
    let failed = c.disconnect_finished(Err(Error::Connection("closed".to_string())));
    assert!(matches!(failed, Err(Error::Connection(_))));
    assert!(c.is_connected());
    assert!(c.disconnect_finished(Ok(())).is_ok());
    assert!(c.is_disconnected());
    assert!(!c.has_connection());
    assert!(c.connect().is_ok());
}

#[test]
fn failed_second_attempt_keeps_first_connection() {
    let mut c = ConnectionControl::new();
    assert!(c.connect().is_ok());
    assert!(c.accept().is_ok());
    assert!(c.connect_finished(Ok(()), "127.0.0.1:4000".to_string()).is_ok());
    assert!(c.connect_finished(Err(Error::Connection("x".to_string())), "10.0.0.2:9".to_string()).is_err());
    assert!(c.is_disconnected());
    assert!(c.has_connection());
    assert!(c.disconnect().is_err());
}

#[test]
fn status_texts() {
    assert_eq!(connection_status_as_str(ConnectionStatus::Connected), "Connected");
    assert_eq!(connection_status_as_str(ConnectionStatus::Disconnected), "Disconnected");
    assert_eq!(connection_status_as_str(ConnectionStatus::Connecting), "Connecting");
    assert_eq!(
        connection_status_as_str(ConnectionStatus::Accepting),
        "Waiting for remote to connect"
    );
}

#[test]
fn successful_connect_remembers_endpoint() {
    let mut c = ConnectionControl::new();
    assert!(c.connect().is_ok());
    match c.connect_finished(Ok(()), "192.168.1.7:8080".to_string()) {
        Ok(w) => {
            assert_eq!(w.key, "last_endpoint");
            assert_eq!(w.key, LAST_ENDPOINT_KEY);
            assert_eq!(w.value, "192.168.1.7:8080");
        }
        Err(_) => panic!("expected a settings write"),
    }
}

#[test]
fn successful_accept_remembers_port() {
    let mut c = ConnectionControl::new();
    assert!(c.accept().is_ok());
    assert!(c.get_status() == ConnectionStatus::Accepting);
    match c.accept_finished(Ok(()), "4567".to_string()) {
        Ok(w) => {
            assert_eq!(w.key, "last_port");
            assert_eq!(w.key, LAST_ACCEPTED_PORT);
            assert_eq!(w.value, "4567");
        }
        Err(_) => panic!("expected a settings write"),
    }
    assert!(c.is_connected());
    assert!(c.has_connection());
}

#[test]
fn failed_accept_is_disconnected_and_handed_back() {
    let mut c = ConnectionControl::new();
    assert!(c.accept().is_ok());
    let r = c.accept_finished(Err(Error::Connection("reset".to_string())), "4567".to_string());
    assert!(matches!(r, Err(Error::Connection(m)) if m == "reset"));
    assert!(c.is_disconnected());
    assert!(!c.has_connection());
}

#[test]
fn refused_connect_message() {
    let mut c = ConnectionControl::new();
    assert!(c.connect().is_ok());
    match c.connect() {
        Err(e) => assert_eq!(
            e.message(),
            "Could not connect since connection is already established."
        ),
        Ok(()) => panic!("expected a refusal"),
    }
}

#[test]
fn refused_accept_message() {
    let mut c = ConnectionControl::new();
    assert!(c.accept().is_ok());
    assert!(c.accept_finished(Ok(()), "1".to_string()).is_ok());
    match c.accept() {
        Err(e) => assert_eq!(
            e.message(),
            "Could not connect since connection is already established."
        ),
        Ok(()) => panic!("expected a refusal"),
    }
}

#[test]
fn refused_disconnect_message() {
    let c = ConnectionControl::new();
    match c.disconnect() {
        Err(e) => assert_eq!(
            e.message(),
            "Could not disconnect since no connection is established."
        ),
        Ok(()) => panic!("expected a refusal"),
    }
}

#[test]
fn connection_error_messages() {
    assert_eq!(
        Error::Connection("closed".to_string()).message(),
        "Connection error: closed"
    );
    assert_eq!(
        Error::HandshakeError("bad key".to_string()).message(),
        "Handshake error: bad key"
    );
    let io = std::io::Error::new(std::io::ErrorKind::Other, "boom");
    assert_eq!(Error::IO(io).message(), "IO error: boom");
}
