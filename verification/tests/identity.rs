use proto::error::Failure;
use proto::identity::{
    load_or_create, Startup, Stored, DEFAULT_ALIAS, IDENTITY_FILE, TCP_PORT,
};
use proto::model::Info;
use proto::text::decimal_text;

fn is_v4(id: u128) -> bool {
    (id >> 76) & 0xf == 4 && (id >> 62) & 0x3 == 2
}

#[test]
fn the_defaults() {
    assert_eq!(DEFAULT_ALIAS, "Peer");
    assert_eq!(TCP_PORT, 8000);
    assert_eq!(IDENTITY_FILE, "device.json");
}

#[test]
fn a_generated_identity_has_the_defaults_and_a_random_id() {
    let first = Info::generate();
    let second = Info::generate();
    assert_eq!(first.alias, "Peer");
    assert_eq!(first.port, 8000);
    assert!(is_v4(first.id));
    assert!(is_v4(second.id));
    assert_ne!(first.id, second.id);
}

#[test]
fn the_alias_and_the_port_can_be_overridden() {
    let info = Info { id: 5, alias: "Peer".to_string(), port: 8000 };
    let renamed = info.with_alias("Kitchen".to_string());
    assert_eq!(renamed, Info { id: 5, alias: "Kitchen".to_string(), port: 8000 });
    let moved = renamed.with_port(9000);
    assert_eq!(moved, Info { id: 5, alias: "Kitchen".to_string(), port: 9000 });
}

#[test]
fn a_stored_identity_is_taken_as_it_is() {
    let stored = Info { id: 5, alias: "Kitchen".to_string(), port: 9000 };
    assert_eq!(
        load_or_create(Stored::Found(stored)),
        Ok(Startup { info: Info { id: 5, alias: "Kitchen".to_string(), port: 9000 }, persist: false })
    );
}

#[test]
fn without_a_file_an_identity_is_created_and_persisted() {
    let startup = load_or_create(Stored::Absent).unwrap();
    assert!(startup.persist);
    assert_eq!(startup.info.alias, "Peer");
    assert_eq!(startup.info.port, 8000);
    assert!(is_v4(startup.info.id));
}

#[test]
fn a_file_that_cannot_be_used_is_an_error() {
    assert_eq!(load_or_create(Stored::Unreadable), Err(Failure::Io));
    assert_eq!(load_or_create(Stored::Malformed), Err(Failure::Serialization));
}

#[test]
fn numbers_in_decimal() {
    assert_eq!(decimal_text(0), "0");
    assert_eq!(decimal_text(9), "9");
    assert_eq!(decimal_text(10), "10");
    assert_eq!(decimal_text(8000), "8000");
    assert_eq!(decimal_text(53317), "53317");
    assert_eq!(decimal_text(65535), "65535");
    assert_eq!(decimal_text(1234567890), "1234567890");
    assert_eq!(decimal_text(u64::MAX), "18446744073709551615");
}
