use xs_file_transfer::network::receiver::{
    check_can_start_receiving, check_connection, receive_loop_status, stop_refusal, Error, ReceiveLoopStatus,
};

#[test]
fn loop_status() {
    assert!(receive_loop_status(false, false) == ReceiveLoopStatus::NotStarted);
    assert!(receive_loop_status(false, true) == ReceiveLoopStatus::NotStarted);
    assert!(receive_loop_status(true, false) == ReceiveLoopStatus::Receiving);
    assert!(receive_loop_status(true, true) == ReceiveLoopStatus::ShuttingDown);
}

#[test]
fn start_only_when_not_started() {
    assert!(matches!(
        check_can_start_receiving(ReceiveLoopStatus::NotStarted),
        Ok("waiting to receive file...")
    ));
    assert!(matches!(
        check_can_start_receiving(ReceiveLoopStatus::Receiving),
        Err(Error::AlreadyReceiving)
    ));
    assert!(matches!(
        check_can_start_receiving(ReceiveLoopStatus::ShuttingDown),
        Err(Error::AlreadyReceiving)
    ));
}

#[test]
fn stop_before_start_is_refused() {
    assert_eq!(stop_refusal(false), Some("receiving has not yet started: unable to stop"));
    assert_eq!(stop_refusal(true), None);
}

#[test]
fn receive_error_messages() {
    assert_eq!(Error::AlreadyReceiving.message(), "Receive loop was already started");
    assert_eq!(
        Error::ConnectionClone("gone".to_string()).message(),
        "Unable to clone connection: gone"
    );
    assert_eq!(
        Error::NoConnection.message(),
        "Unable to start receiving without an established connection"
    );
}

#[test]
fn receiving_needs_a_connection() {
    assert!(check_connection(true).is_ok());
    match check_connection(false) {
        Err(e) => assert_eq!(
            e.message(),
            "Unable to start receiving without an established connection"
        ),
        Ok(()) => panic!("expected NoConnection"),
    }
}
