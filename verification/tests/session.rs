use protohackers::session::new_session;
use protohackers::wire::ProtocolError;

fn frame(tag: u8, first: i32, second: i32) -> [u8; 9] {
    let a = first.to_be_bytes();
    let b = second.to_be_bytes();
    [tag, a[0], a[1], a[2], a[3], b[0], b[1], b[2], b[3]]
}

#[test]
fn new_session_answers_zero() {
    let mut session = new_session();
    assert_eq!(session.ledger().len(), 0);
    assert_eq!(session.on_frame(frame(b'Q', i32::MIN, i32::MAX)), Ok(Some([0, 0, 0, 0])));
}

#[test]
fn insert_frames_have_no_response() {
    let mut session = new_session();
    assert_eq!(session.on_frame(frame(b'I', 1000, 100)), Ok(None));
    assert_eq!(session.ledger().get(1000), Some(100));
}

#[test]
fn three_inserts_and_four_queries() {
    let mut session = new_session();
    assert_eq!(session.on_frame(frame(b'I', 1000, 100)), Ok(None));
    assert_eq!(session.on_frame(frame(b'I', 1010, 200)), Ok(None));
    assert_eq!(session.on_frame(frame(b'I', 1020, 300)), Ok(None));
    assert_eq!(session.on_frame(frame(b'Q', 1000, 1020)), Ok(Some([0, 0, 0, 200])));
    assert_eq!(session.on_frame(frame(b'Q', 1005, 1015)), Ok(Some([0, 0, 0, 200])));
    assert_eq!(session.on_frame(frame(b'Q', 2000, 1000)), Ok(Some([0, 0, 0, 0])));
    assert_eq!(session.on_frame(frame(b'Q', 5000, 6000)), Ok(Some([0, 0, 0, 0])));
}

#[test]
fn raw_bytes_of_a_small_exchange() {
    let mut session = new_session();
    let inserts: [[u8; 9]; 4] = [
        [0x49, 0x00, 0x00, 0x30, 0x39, 0x00, 0x00, 0x00, 0x65],
        [0x49, 0x00, 0x00, 0x30, 0x3a, 0x00, 0x00, 0x00, 0x66],
        [0x49, 0x00, 0x00, 0x30, 0x3b, 0x00, 0x00, 0x00, 0x64],
        [0x49, 0x00, 0x00, 0xa0, 0x00, 0x00, 0x00, 0x00, 0x05],
    ];
    for bytes in inserts {
        assert_eq!(session.on_frame(bytes), Ok(None));
    }
    let query = [0x51, 0x00, 0x00, 0x30, 0x00, 0x00, 0x00, 0x40, 0x00];
    assert_eq!(session.on_frame(query), Ok(Some([0x00, 0x00, 0x00, 0x65])));
}

#[test]
fn negative_mean_is_sent_in_twos_complement() {
    let mut session = new_session();
    assert_eq!(session.on_frame(frame(b'I', 1, -10)), Ok(None));
    assert_eq!(session.on_frame(frame(b'I', 2, -11)), Ok(None));
    assert_eq!(session.on_frame(frame(b'Q', 1, 2)), Ok(Some([0xff, 0xff, 0xff, 0xf6])));
}

#[test]
fn extreme_prices_over_the_wire() {
    let mut session = new_session();
    assert_eq!(session.on_frame(frame(b'I', 1, i32::MIN)), Ok(None));
    assert_eq!(session.on_frame(frame(b'I', 2, i32::MAX)), Ok(None));
    assert_eq!(session.on_frame(frame(b'Q', 1, 2)), Ok(Some([0, 0, 0, 0])));
    assert_eq!(session.on_frame(frame(b'Q', 1, 1)), Ok(Some([0x80, 0, 0, 0])));
    assert_eq!(session.on_frame(frame(b'Q', 2, 2)), Ok(Some([0x7f, 0xff, 0xff, 0xff])));
}

#[test]
fn unknown_tag_is_a_protocol_error_and_changes_nothing() {
    let mut session = new_session();
    assert_eq!(session.on_frame(frame(b'I', 1, 10)), Ok(None));
    assert_eq!(
        session.on_frame(frame(b'X', 1, 99)),
        Err(ProtocolError::UnknownTag { tag: b'X' })
    );
    assert_eq!(session.on_frame(frame(0, 2, 99)), Err(ProtocolError::UnknownTag { tag: 0 }));
    assert_eq!(session.ledger().len(), 1);
    assert_eq!(session.ledger().get(1), Some(10));
    assert_eq!(session.ledger().get(2), None);
}

#[test]
fn overwrite_over_the_wire() {
    let mut session = new_session();
    assert_eq!(session.on_frame(frame(b'I', 42, 1)), Ok(None));
    assert_eq!(session.on_frame(frame(b'I', 42, 77)), Ok(None));
    assert_eq!(session.on_frame(frame(b'Q', 42, 42)), Ok(Some([0, 0, 0, 77])));
    assert_eq!(session.ledger().len(), 1);
}

#[test]
fn repeated_query_over_the_wire() {
    let mut session = new_session();
    assert_eq!(session.on_frame(frame(b'I', 1, 3)), Ok(None));
    assert_eq!(session.on_frame(frame(b'I', 2, 4)), Ok(None));
    let first = session.on_frame(frame(b'Q', 0, 5));
    let second = session.on_frame(frame(b'Q', 0, 5));
    assert_eq!(first, Ok(Some([0, 0, 0, 3])));
    assert_eq!(first, second);
}

#[test]
fn sessions_do_not_share_prices() {
    let mut one = new_session();
    let mut two = new_session();
    assert_eq!(one.on_frame(frame(b'I', 1, 10)), Ok(None));
    assert_eq!(two.on_frame(frame(b'Q', 1, 1)), Ok(Some([0, 0, 0, 0])));
    assert_eq!(one.on_frame(frame(b'Q', 1, 1)), Ok(Some([0, 0, 0, 10])));
}
