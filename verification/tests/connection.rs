use bytes::Bytes;
use rmr::connection::{Connection, Error, Step};
use rmr::frame::Frame;

fn text(frame: &Frame) -> String {
    format!("{:?}", frame)
}

fn frame_of(step: Result<Step, Error>) -> Frame {
    match step {
        Ok(Step::Frame(frame)) => frame,
        other => panic!("no frame: {:?}", other),
    }
}

fn asks_for_bytes(step: Result<Step, Error>) -> bool {
    matches!(step, Ok(Step::Read))
}

#[test]
fn a_new_connection_asks_for_bytes() {
    let mut connection = Connection::new();
    assert!(asks_for_bytes(connection.read_frame(None)));
    assert!(connection.take_output().is_empty());
}

#[test]
fn a_frame_in_one_read_comes_out_at_once() {
    let mut connection = Connection::new();
    let frame = frame_of(connection.read_frame(Some(b"+OK\r\n")));
    assert_eq!(text(&frame), text(&Frame::Simple("OK".to_string())));
    assert!(asks_for_bytes(connection.read_frame(None)));
}

#[test]
fn a_frame_split_over_reads_comes_out_with_the_last_one() {
    let whole: &[u8] = b"*2\r\n$3\r\nget\r\n$3\r\nkey\r\n";
    let expected = Frame::Array(vec![
        Frame::Bulk(Bytes::from_static(b"get")),
        Frame::Bulk(Bytes::from_static(b"key")),
    ]);
    for first in 1..whole.len() {
        for second in first..whole.len() {
            let mut connection = Connection::new();
            assert!(asks_for_bytes(connection.read_frame(Some(&whole[..first]))));
            if second > first {
                assert!(asks_for_bytes(connection.read_frame(Some(&whole[first..second]))));
            }
            let frame = frame_of(connection.read_frame(Some(&whole[second..])));
            assert_eq!(text(&frame), text(&expected));
            assert!(asks_for_bytes(connection.read_frame(None)));
            assert!(matches!(connection.read_frame(Some(b"")), Ok(Step::Closed)));
        }
    }
}

#[test]
fn a_frame_that_arrives_byte_by_byte_comes_out_once() {
    let whole: &[u8] = b"$5\r\nhello\r\n";
    let mut connection = Connection::new();
    for i in 0..whole.len() - 1 {
        assert!(asks_for_bytes(connection.read_frame(Some(&whole[i..i + 1]))), "byte {}", i);
    }
    let frame = frame_of(connection.read_frame(Some(&whole[whole.len() - 1..])));
    assert_eq!(text(&frame), text(&Frame::Bulk(Bytes::from_static(b"hello"))));
    assert!(asks_for_bytes(connection.read_frame(None)));
}

#[test]
fn bytes_behind_a_frame_stay_for_the_next_one() {
    let mut connection = Connection::new();
    let frame = frame_of(connection.read_frame(Some(b"+one\r\n:2\r\n$5\r\nth")));
    assert_eq!(text(&frame), text(&Frame::Simple("one".to_string())));
    let frame = frame_of(connection.read_frame(None));
    assert_eq!(text(&frame), text(&Frame::Integer(2)));
    assert!(asks_for_bytes(connection.read_frame(None)));
    let frame = frame_of(connection.read_frame(Some(b"ree\r\n")));
    assert_eq!(text(&frame), text(&Frame::Bulk(Bytes::from_static(b"three"))));
    assert!(matches!(connection.read_frame(Some(b"")), Ok(Step::Closed)));
}

#[test]
fn a_close_between_frames_is_clean() {
    let mut connection = Connection::new();
    assert!(matches!(connection.read_frame(Some(b"")), Ok(Step::Closed)));

    let mut connection = Connection::new();
    frame_of(connection.read_frame(Some(b":1\r\n")));
    assert!(matches!(connection.read_frame(Some(b"")), Ok(Step::Closed)));
}

#[test]
fn a_close_in_the_middle_of_a_frame_is_a_reset() {
    let mut connection = Connection::new();
    assert!(asks_for_bytes(connection.read_frame(Some(b"$5\r\nhel"))));
    assert!(matches!(connection.read_frame(Some(b"")), Err(Error::Reset)));

    let mut connection = Connection::new();
    assert!(asks_for_bytes(connection.read_frame(Some(b"+"))));
    assert!(matches!(connection.read_frame(Some(b"")), Err(Error::Reset)));
}

#[test]
fn bytes_that_are_no_frame_end_the_connection() {
    let mut connection = Connection::new();
    assert!(matches!(connection.read_frame(Some(b"%5\r\n")), Err(Error::Frame)));

    let mut connection = Connection::new();
    assert!(matches!(connection.read_frame(Some(b":abc\r\n")), Err(Error::Frame)));

    let mut connection = Connection::new();
    assert!(matches!(connection.read_frame(Some(b"+\xff\r\n")), Err(Error::Frame)));

    let mut connection = Connection::new();
    assert!(matches!(connection.read_frame(Some(b"$-2\r\n")), Err(Error::Frame)));
}

#[test]
fn a_connection_says_which_error_stands_behind_a_bad_frame() {
    let cases: Vec<(&[u8], Option<rmr::frame::Error>)> = vec![
        (b"", None),
        (b"+OK", None),
        (b"+OK\r\n", None),
        (b"$5\r\nhel", None),
        (b"%5\r\n", Some(rmr::frame::Error::ProtocolError { b: b'%' })),
        (b":12x\r\n", Some(rmr::frame::Error::DecimalError)),
        (b"*-\r\n", Some(rmr::frame::Error::DecimalError)),
        (b"$-2\r\n", Some(rmr::frame::Error::ProtocolError { b: 1 })),
        (b"+\xff\r\n", Some(rmr::frame::Error::EncodeError)),
    ];
    for (bytes, expected) in cases {
        let mut connection = Connection::new();
        if !bytes.is_empty() {
            let step = connection.read_frame(Some(bytes));
            assert_eq!(matches!(step, Err(Error::Frame)), expected.is_some(), "{:?}", bytes);
            if bytes == b"+OK\r\n" {
                assert!(matches!(step, Ok(Step::Frame(_))));
            }
        }
        if bytes != b"+OK\r\n" {
            assert_eq!(connection.frame_error(), expected, "{:?}", bytes);
        }
    }
}

#[test]
fn a_number_that_is_not_digits_only_ends_the_connection() {
    for bytes in [&b":12x\r\n"[..], b":+7\r\n", b"$-\r\n\r\n", b"*+\r\n", b"$1 \r\na\r\n"] {
        let mut connection = Connection::new();
        assert!(matches!(connection.read_frame(Some(bytes)), Err(Error::Frame)), "{:?}", bytes);
    }
}

#[test]
fn one_connection_that_fails_leaves_another_alone() {
    let mut bad = Connection::new();
    let mut good = Connection::new();
    assert!(asks_for_bytes(good.read_frame(Some(b"+O"))));
    assert!(matches!(bad.read_frame(Some(b"%")), Err(Error::Frame)));
    let frame = frame_of(good.read_frame(Some(b"K\r\n")));
    assert_eq!(text(&frame), text(&Frame::Simple("OK".to_string())));
}

#[test]
fn parse_frame_takes_one_frame_and_leaves_the_rest() {
    let mut connection = Connection::new();
    assert!(matches!(connection.parse_frame(), Ok(None)));
    assert!(asks_for_bytes(connection.read_frame(Some(b"+a"))));
    assert!(matches!(connection.parse_frame(), Ok(None)));
    frame_of(connection.read_frame(Some(b"\r\n+b\r\n+c")));
    match connection.parse_frame() {
        Ok(Some(frame)) => assert_eq!(text(&frame), text(&Frame::Simple("b".to_string()))),
        other => panic!("no frame: {:?}", other),
    }
    assert!(matches!(connection.parse_frame(), Ok(None)));
}

#[test]
fn written_frames_wait_in_order_until_they_are_taken() {
    let mut connection = Connection::new();
    connection.write_frame(&Frame::Simple("OK".to_string()));
    connection.write_frame(&Frame::Integer(42));
    connection.write_frame(&Frame::Array(vec![Frame::Null, Frame::Error("e".to_string())]));
    assert_eq!(connection.take_output(), b"+OK\r\n:42\r\n*2\r\n$-1\r\n-e\r\n");
    assert!(connection.take_output().is_empty());
    connection.write_frame(&Frame::Null);
    assert_eq!(connection.take_output(), b"$-1\r\n");
}

#[test]
fn writing_does_not_touch_what_was_received() {
    let mut connection = Connection::new();
    assert!(asks_for_bytes(connection.read_frame(Some(b"+O"))));
    connection.write_frame(&Frame::Integer(1));
    assert_eq!(connection.take_output(), b":1\r\n");
    let frame = frame_of(connection.read_frame(Some(b"K\r\n")));
    assert_eq!(text(&frame), text(&Frame::Simple("OK".to_string())));
}

#[test]
fn a_buffer_has_room_up_to_the_largest_allocation() {
    let mut connection = Connection::new();
    assert!(connection.has_room(0));
    assert!(connection.has_room(4096));
    assert!(connection.has_room(isize::MAX as usize));
    assert!(!connection.has_room(isize::MAX as usize + 1));
    assert!(!connection.has_room(usize::MAX));
    assert!(asks_for_bytes(connection.read_frame(Some(b"+abc"))));
    assert!(connection.has_room(isize::MAX as usize - 4));
    assert!(!connection.has_room(isize::MAX as usize - 3));
}

#[test]
fn more_bytes_than_the_first_capacity_are_taken() {
    let payload = vec![b'x'; 10000];
    let mut bytes = b"$10000\r\n".to_vec();
    bytes.extend_from_slice(&payload);
    bytes.extend_from_slice(b"\r\n");
    let mut connection = Connection::new();
    assert!(asks_for_bytes(connection.read_frame(Some(&bytes[..5000]))));
    let frame = frame_of(connection.read_frame(Some(&bytes[5000..])));
    match frame {
        Frame::Bulk(data) => assert_eq!(&data[..], &payload[..]),
        other => panic!("not a bulk string: {:?}", other),
    }
}
