use kvloop::server::BUF_CAP;
use kvloop::server::DataOutcome;
use kvloop::server::Driver;

fn reply(bytes: &[u8]) -> DataOutcome {
    DataOutcome::Reply(bytes.to_vec())
}

#[test]
fn session_set_get_miss_and_second_client() {
    let mut d = Driver::new();

    // First client connects and runs a session.
    assert_eq!(d.on_accept(1), b"> ".to_vec());
    assert_eq!(d.on_data(1, b"set foo bar\r\n"), reply(b"OK\n> "));
    assert_eq!(d.on_data(1, b"get foo\r\n"), reply(b"bar\r\n> "));
    assert_eq!(d.on_data(1, b"get baz\r\n"), reply(b"ERR\n\r\n> "));

    // A second client is connected concurrently; the first disconnects.
    assert_eq!(d.on_accept(2), b"> ".to_vec());
    assert!(d.remove(1));

    // The second client still sees the stored value.
    assert_eq!(d.on_data(2, b"get foo\r\n"), reply(b"bar\r\n> "));
}

#[test]
fn set_get_across_connections() {
    let mut d = Driver::new();
    d.on_accept(7);
    d.on_accept(8);
    assert_eq!(d.on_data(7, b"set k v\r\n"), reply(b"OK\n> "));
    // Same connection and a different one both read the value back.
    assert_eq!(d.on_data(7, b"get k\r\n"), reply(b"v\r\n> "));
    assert_eq!(d.on_data(8, b"get k\r\n"), reply(b"v\r\n> "));
}

#[test]
fn get_of_never_written_key_misses_and_keeps_connection() {
    let mut d = Driver::new();
    d.on_accept(1);
    assert_eq!(d.on_data(1, b"get nothing\r\n"), reply(b"ERR\n\r\n> "));
    // The connection is still live and usable.
    assert!(d.has_conn(1));
    assert_eq!(d.on_data(1, b"set a 1\r\n"), reply(b"OK\n> "));
}

#[test]
fn split_message_decodes_like_whole_message() {
    let mut split = Driver::new();
    split.on_accept(1);
    assert_eq!(split.on_data(1, b"se"), DataOutcome::Pending);
    assert_eq!(split.on_data(1, b"t a 1\r\n"), reply(b"OK\n> "));

    let mut whole = Driver::new();
    whole.on_accept(1);
    assert_eq!(whole.on_data(1, b"set a 1\r\n"), reply(b"OK\n> "));

    // Both stores answer alike afterwards.
    assert_eq!(split.on_data(1, b"get a\r\n"), reply(b"1\r\n> "));
    assert_eq!(whole.on_data(1, b"get a\r\n"), reply(b"1\r\n> "));
}

#[test]
fn byte_by_byte_delivery() {
    let mut d = Driver::new();
    d.on_accept(1);
    for b in b"set x yz".iter() {
        assert_eq!(d.on_data(1, &[*b]), DataOutcome::Pending);
    }
    assert_eq!(d.on_data(1, b"\r"), DataOutcome::Pending);
    assert_eq!(d.on_data(1, b"\n"), reply(b"OK\n> "));
    assert_eq!(d.on_data(1, b"get x\r\n"), reply(b"yz\r\n> "));
}

#[test]
fn set_without_value_errors_and_leaves_store_unchanged() {
    let mut d = Driver::new();
    d.on_accept(1);
    assert_eq!(d.on_data(1, b"set a\r\n"), reply(b"ERR value\n> "));
    // Key `a` was never bound.
    assert_eq!(d.on_data(1, b"get a\r\n"), reply(b"ERR\n\r\n> "));
}

#[test]
fn set_without_key_errors() {
    let mut d = Driver::new();
    d.on_accept(1);
    assert_eq!(d.on_data(1, b"set \r\n"), reply(b"ERR key\n> "));
    assert_eq!(d.on_data(1, b"get \r\n"), reply(b"ERR key\n> "));
}

#[test]
fn unknown_verb_errors_and_keeps_connection() {
    let mut d = Driver::new();
    d.on_accept(1);
    assert_eq!(d.on_data(1, b"SET a 1\r\n"), reply(b"ERR\n> "));
    assert_eq!(d.on_data(1, b"\r\n"), reply(b"ERR\n> "));
    assert!(d.has_conn(1));
}

#[test]
fn repeating_a_set_leaves_the_store_identical() {
    let mut d = Driver::new();
    d.on_accept(1);
    assert_eq!(d.on_data(1, b"set foo bar\r\n"), reply(b"OK\n> "));
    assert_eq!(d.on_data(1, b"set foo bar\r\n"), reply(b"OK\n> "));

    let mut once = Driver::new();
    once.on_accept(1);
    assert_eq!(once.on_data(1, b"set foo bar\r\n"), reply(b"OK\n> "));

    assert_eq!(d.on_data(1, b"get foo\r\n"), reply(b"bar\r\n> "));
    assert_eq!(once.on_data(1, b"get foo\r\n"), reply(b"bar\r\n> "));
}

#[test]
fn stale_identifier_reports_not_found() {
    let mut d = Driver::new();
    assert_eq!(d.on_data(5, b"get a\r\n"), DataOutcome::NotFound);
    d.on_accept(5);
    assert!(d.remove(5));
    assert_eq!(d.on_data(5, b"get a\r\n"), DataOutcome::NotFound);
    assert!(!d.remove(5));
}

#[test]
fn one_shot_bookkeeping_is_explicit() {
    let mut d = Driver::new();
    d.on_accept(3);
    assert!(d.is_armed(3));
    assert_eq!(d.on_data(3, b"ge"), DataOutcome::Pending);
    // The registration fired for this delivery; it is disarmed until the
    // loop re-arms it.
    assert!(!d.is_armed(3));
    assert!(d.rearm(3));
    assert!(d.is_armed(3));
    // Every delivery disarms, whatever the outcome.
    assert_eq!(d.on_data(3, b"t a\r\n"), reply(b"ERR\n\r\n> "));
    assert!(!d.is_armed(3));
    // Re-arming a stale identifier reports it.
    assert!(!d.rearm(44));
}

#[test]
fn overlong_message_is_rejected_and_connection_recovers() {
    let mut d = Driver::new();
    d.on_accept(1);
    // Fill the buffer without ever sending the terminator.
    let chunk = vec![b'x'; BUF_CAP - 1];
    assert_eq!(d.on_data(1, &chunk), DataOutcome::Pending);
    // These bytes would pass the capacity: the message is discarded.
    assert_eq!(d.on_data(1, b"yyyyyyyy"), reply(b"ERR\n> "));
    // The buffer was reset; the connection works normally again.
    assert_eq!(d.on_data(1, b"set a 1\r\n"), reply(b"OK\n> "));
    assert_eq!(d.on_data(1, b"get a\r\n"), reply(b"1\r\n> "));
}

#[test]
fn oversized_single_delivery_is_rejected() {
    let mut d = Driver::new();
    d.on_accept(1);
    let huge = vec![b'x'; BUF_CAP + 1];
    assert_eq!(d.on_data(1, &huge), reply(b"ERR\n> "));
}

#[test]
fn terminator_only_counts_at_the_end_of_the_buffer() {
    let mut d = Driver::new();
    d.on_accept(1);
    // The terminator sits in the middle of the delivered bytes, so no
    // message is complete yet; the buffer keeps accumulating.
    assert_eq!(d.on_data(1, b"get a\r\nx"), DataOutcome::Pending);
    // The whole buffer is then one line, `get` of the key `a\r\nx`: a miss.
    assert_eq!(d.on_data(1, b"\r\n"), reply(b"ERR\n\r\n> "));
}

#[test]
fn partial_messages_are_buffered_per_connection() {
    let mut d = Driver::new();
    d.on_accept(1);
    d.on_accept(2);
    assert_eq!(d.on_data(1, b"set a "), DataOutcome::Pending);
    assert_eq!(d.on_data(2, b"set b "), DataOutcome::Pending);
    assert_eq!(d.on_data(1, b"1\r\n"), reply(b"OK\n> "));
    assert_eq!(d.on_data(2, b"2\r\n"), reply(b"OK\n> "));
    assert_eq!(d.on_data(1, b"get b\r\n"), reply(b"2\r\n> "));
    assert_eq!(d.on_data(2, b"get a\r\n"), reply(b"1\r\n> "));
}

#[test]
fn accept_replaces_state_under_reused_identifier() {
    let mut d = Driver::new();
    d.on_accept(1);
    assert_eq!(d.on_data(1, b"set a "), DataOutcome::Pending);
    assert!(d.remove(1));
    // The OS may hand the same descriptor number to a new connection; its
    // buffer starts empty.
    assert_eq!(d.on_accept(1), b"> ".to_vec());
    assert_eq!(d.on_data(1, b"get a\r\n"), reply(b"ERR\n\r\n> "));
}
