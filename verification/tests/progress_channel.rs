use uploader::progress::{ChannelSession, ProgressStore, SessionAction, SessionEvent};

#[test]
fn roundtrip_small_values() {
    let store = ProgressStore::new(0);
    let values: Vec<i32> = vec![0, 1, -1, 7, 42, -99, 1000000, -1000000];
    for v in values {
        let msg = format!("{}", v);
        let reply = store.handle_message(msg.as_bytes());
        assert_eq!(reply, msg.as_bytes().to_vec());
        assert_eq!(store.get(), v);
    }
}

#[test]
fn roundtrip_extreme_values() {
    let store = ProgressStore::new(0);
    for v in [i32::MAX, i32::MIN, i32::MAX - 1, i32::MIN + 1] {
        let msg = format!("{}", v);
        let reply = store.handle_message(msg.as_bytes());
        assert_eq!(reply, msg.as_bytes().to_vec());
        assert_eq!(store.get(), v);
    }
}

#[test]
fn explicit_plus_sign_accepted() {
    let store = ProgressStore::new(0);
    let reply = store.handle_message(b"+7");
    assert_eq!(reply, b"7".to_vec());
    assert_eq!(store.get(), 7);
}

#[test]
fn negative_zero_normalizes() {
    let store = ProgressStore::new(3);
    let reply = store.handle_message(b"-0");
    assert_eq!(reply, b"0".to_vec());
    assert_eq!(store.get(), 0);
}

#[test]
fn non_numeric_message_keeps_value() {
    let store = ProgressStore::new(0);
    store.set(5);
    let reply = store.handle_message(b"abc");
    assert_eq!(reply, b"5".to_vec());
    assert_eq!(store.get(), 5);
}

#[test]
fn malformed_numbers_keep_value() {
    let store = ProgressStore::new(0);
    store.set(5);
    for msg in [
        &b""[..],
        b"+",
        b"-",
        b"12a",
        b"a12",
        b" 1",
        b"1 ",
        b"1.5",
        b"--4",
        b"+-4",
    ] {
        let reply = store.handle_message(msg);
        assert_eq!(reply, b"5".to_vec());
        assert_eq!(store.get(), 5);
    }
}

#[test]
fn out_of_range_numbers_keep_value() {
    let store = ProgressStore::new(0);
    store.set(5);
    for msg in [
        &b"2147483648"[..],
        b"-2147483649",
        b"9999999999",
        b"-9999999999",
        b"99999999999999999999999999999999",
    ] {
        let reply = store.handle_message(msg);
        assert_eq!(reply, b"5".to_vec());
        assert_eq!(store.get(), 5);
    }
}

#[test]
fn range_boundaries_accepted() {
    let store = ProgressStore::new(0);
    let reply = store.handle_message(b"2147483647");
    assert_eq!(reply, b"2147483647".to_vec());
    let reply = store.handle_message(b"-2147483648");
    assert_eq!(reply, b"-2147483648".to_vec());
}

#[test]
fn get_set_store_value() {
    let store = ProgressStore::new(11);
    assert_eq!(store.get(), 11);
    store.set(-4);
    assert_eq!(store.get(), -4);
}

#[test]
fn value_written_by_one_session_is_seen_by_another() {
    let store = ProgressStore::new(0);
    let mut a = ChannelSession::new();
    let mut b = ChannelSession::new();
    let act = a.on_event(&store, SessionEvent::Inbound(b"31".to_vec()));
    match act {
        SessionAction::Reply(r) => assert_eq!(r, b"31".to_vec()),
        SessionAction::Close => panic!("inbound message must be replied to"),
    }
    let act = b.on_event(&store, SessionEvent::Inbound(b"what is it now?".to_vec()));
    match act {
        SessionAction::Reply(r) => assert_eq!(r, b"31".to_vec()),
        SessionAction::Close => panic!("inbound message must be replied to"),
    }
}

#[test]
fn two_writers_leave_one_of_their_values() {
    let store = ProgressStore::new(0);
    let mut a = ChannelSession::new();
    let mut b = ChannelSession::new();
    a.on_event(&store, SessionEvent::Inbound(b"1".to_vec()));
    b.on_event(&store, SessionEvent::Inbound(b"2".to_vec()));
    let v = store.get();
    assert!(v == 1 || v == 2);
}

#[test]
fn disconnect_closes_session() {
    let store = ProgressStore::new(0);
    let mut s = ChannelSession::new();
    let act = s.on_event(&store, SessionEvent::Disconnected);
    assert!(matches!(act, SessionAction::Close));
}

#[test]
fn failed_send_closes_session() {
    let store = ProgressStore::new(0);
    let mut s = ChannelSession::new();
    let act = s.on_event(&store, SessionEvent::SendFailed);
    assert!(matches!(act, SessionAction::Close));
}
