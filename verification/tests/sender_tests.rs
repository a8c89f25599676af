use xs_file_transfer::network::file_transmission::Error as PackingError;
use xs_file_transfer::network::sender::{
    after_file_sent, check_path_exists, choose_location, locate_file, packing_failed,
    send_completed, sending_message, SendProgress, SendStep, LAST_SEND_PATH,
};

fn location(r: Result<xs_file_transfer::network::sender::FileLocation, String>) -> Result<(String, String), String> {
    r.map(|l| (l.directory, l.sub_path))
}

#[test]
fn sent_file_goes_on() {
    match after_file_sent("\"/tmp/a.txt\"", Ok(())) {
        SendStep::Continue(m) => assert_eq!(m, "sent file \"/tmp/a.txt\""),
        SendStep::Stop(_) => panic!("expected to go on"),
    }
}

#[test]
fn failed_send_stops() {
    match after_file_sent("\"/tmp/a.txt\"", Err("broken pipe".to_string())) {
        SendStep::Stop(m) => assert_eq!(m, "error while sending file \"/tmp/a.txt\":\nbroken pipe"),
        SendStep::Continue(_) => panic!("expected to stop"),
    }
}

#[test]
fn completed_send_remembers_path() {
    let w = send_completed("/home/u/photos".to_string());
    assert_eq!(w.key, "last_send_path");
    assert_eq!(w.key, LAST_SEND_PATH);
    assert_eq!(w.value, "/home/u/photos");
}

#[test]
fn messages_before_and_on_failure() {
    assert_eq!(sending_message("\"x\""), "sending file \"x\"");
    assert!(check_path_exists(true).is_ok());
    assert_eq!(check_path_exists(false), Err("file path does not exist".to_string()));
    match packing_failed(&PackingError::FilenameDecoding) {
        SendStep::Stop(m) => assert_eq!(m, "File name not in a recognized format"),
        SendStep::Continue(_) => panic!("expected to stop"),
    }
}

#[test]
fn chosen_file_is_read_from_its_directory() {
    let r = choose_location(
        "/home/u",
        true,
        Some("a.txt".to_string()),
        Some("/home/u".to_string()),
        "\"/home/u/a.txt\"",
        "\"/home/u\"",
    );
    assert_eq!(location(r), Ok(("/home/u".to_string(), "a.txt".to_string())));
}

#[test]
fn files_of_a_directory_are_read_from_the_root() {
    let r = choose_location("/home", false, Some("u/d/x.txt".to_string()), None, "l", "m");
    assert_eq!(location(r), Ok(("/home".to_string(), "u/d/x.txt".to_string())));
}

#[test]
fn location_failures() {
    let r = choose_location("/home", false, None, None, "\"/etc/x\"", "\"/home\"");
    assert_eq!(
        location(r),
        Err("file path \"/etc/x\" does not contain passed path \"/home\"".to_string())
    );
    let r = choose_location("/", true, Some("x".to_string()), None, "l", "m");
    assert_eq!(location(r), Err("unable to extract directory".to_string()));
}

#[test]
fn locate_file_below_the_root() {
    let r = locate_file("/home/u", true, "/home/u/a.txt", "l", "m");
    assert_eq!(location(r), Ok(("/home/u".to_string(), "a.txt".to_string())));
    let r = locate_file("/home", false, "/home/u/d/x.txt", "l", "m");
    assert_eq!(location(r), Ok(("/home".to_string(), "u/d/x.txt".to_string())));
    let r = locate_file("/home", false, "/etc/x", "\"/etc/x\"", "\"/home\"");
    assert_eq!(
        location(r),
        Err("file path \"/etc/x\" does not contain passed path \"/home\"".to_string())
    );
}

#[test]
fn path_is_remembered_only_after_every_file() {
    let mut p = SendProgress::new("/home/u".to_string(), 2);
    p.record(&SendStep::Continue("sent".to_string()));
    p.record(&SendStep::Continue("sent".to_string()));
    match p.finish() {
        Some(w) => {
            assert_eq!(w.key, "last_send_path");
            assert_eq!(w.value, "/home/u");
        }
        None => panic!("expected a settings write"),
    }
}

#[test]
fn stopped_send_is_not_remembered() {
    let mut p = SendProgress::new("/home/u".to_string(), 3);
    p.record(&SendStep::Continue("sent".to_string()));
    p.record(&SendStep::Stop("failed".to_string()));
    assert!(p.is_stopped());
    p.record(&SendStep::Continue("sent".to_string()));
    assert!(p.is_stopped());
    assert!(p.finish().is_none());
}

#[test]
fn unfinished_send_is_not_remembered() {
    let mut p = SendProgress::new("/x".to_string(), 2);
    p.record(&SendStep::Continue("sent".to_string()));
    assert!(p.finish().is_none());
    let p = SendProgress::new("/empty".to_string(), 0);
    assert!(p.finish().is_some());
}
