use kakpipe::command::{Client, MessageType};
use kakpipe::error::Error;

#[test]
fn socket_lies_under_the_runtime_directory() {
    let client = Client::new("main", Some("/run/user/1000"), "/tmp", Some("alice")).ok().unwrap();
    assert_eq!(client.socket_path(), "/run/user/1000/kakoune/main");
    assert!(client.buffer().is_empty());
    let client = Client::new("main", Some("/run/user/1000"), "/tmp", None).ok().unwrap();
    assert_eq!(client.socket_path(), "/run/user/1000/kakoune/main");
}

#[test]
fn socket_falls_back_to_the_temporary_directory() {
    let client = Client::new("s1", None, "/tmp", Some("alice")).ok().unwrap();
    assert_eq!(client.socket_path(), "/tmp/kakoune-alice/s1");
}

#[test]
fn socket_cannot_be_found_without_a_user() {
    assert_eq!(Client::new("s1", None, "/tmp", None).err(), Some(Error::ConnectError));
}

#[test]
fn command_message_bytes() {
    let mut client = Client::new("s", Some("/run"), "/tmp", None).ok().unwrap();
    assert!(client.frame_command("hi"));
    assert_eq!(client.buffer(), &vec![2u8, 11, 0, 0, 0, 2, 0, 0, 0, b'h', b'i']);
    assert!(client.frame_command(""));
    assert_eq!(client.buffer(), &vec![2u8, 9, 0, 0, 0, 0, 0, 0, 0]);
    assert_eq!(client.socket_path(), "/run/kakoune/s");
}

#[test]
fn command_message_lengths_are_little_endian() {
    let mut client = Client::new("s", Some("/run"), "/tmp", None).ok().unwrap();
    let cmd = "é".repeat(0x12345);
    assert!(client.frame_command(&cmd));
    let bytes = client.buffer();
    assert_eq!(bytes.len(), 0x2468a + 9);
    assert_eq!(bytes[0], 2);
    assert_eq!(&bytes[1..5], &[0x93, 0x46, 0x02, 0x00]);
    assert_eq!(&bytes[5..9], &[0x8a, 0x46, 0x02, 0x00]);
    assert_eq!(&bytes[9..], cmd.as_bytes());
}

#[test]
fn message_types_are_numbered_in_order() {
    assert_eq!(MessageType::Unknown.to_tag(), 0);
    assert_eq!(MessageType::Connect.to_tag(), 1);
    assert_eq!(MessageType::Command.to_tag(), 2);
    assert_eq!(MessageType::Key.to_tag(), 14);
}
