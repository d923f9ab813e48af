use std::io::Cursor;

use bytes::Bytes;
use rmr::connection::Connection;
use rmr::frame::{Error, Frame};

fn text(frame: &Frame) -> String {
    format!("{:?}", frame)
}

fn encode(frame: &Frame) -> Vec<u8> {
    let mut connection = Connection::new();
    connection.write_frame(frame);
    connection.take_output()
}

fn decode(bytes: &[u8]) -> (Result<Frame, Error>, u64) {
    let mut src = Cursor::new(bytes);
    let frame = Frame::parse(&mut src);
    (frame, src.position())
}

fn check(bytes: &[u8]) -> (Result<(), Error>, u64) {
    let mut src = Cursor::new(bytes);
    let done = Frame::check(&mut src);
    (done, src.position())
}

fn samples() -> Vec<Frame> {
    vec![
        Frame::Simple("OK".to_string()),
        Frame::Simple(String::new()),
        Frame::Simple("caf\u{e9} \u{1f980}".to_string()),
        Frame::Simple("a\rb\nc\r".to_string()),
        Frame::Error("ERR unknown command".to_string()),
        Frame::Integer(0),
        Frame::Integer(7),
        Frame::Integer(1234567890),
        Frame::Integer(u64::MAX),
        Frame::Bulk(Bytes::from_static(b"hello")),
        Frame::Bulk(Bytes::new()),
        Frame::Bulk(Bytes::from_static(b"two\r\nlines\r\n")),
        Frame::Bulk(Bytes::from_static(&[0, 255, 13, 10, 36, 42])),
        Frame::Null,
        Frame::Array(vec![]),
        Frame::Array(vec![
            Frame::Bulk(Bytes::from_static(b"get")),
            Frame::Bulk(Bytes::from_static(b"key")),
        ]),
        Frame::Array(vec![
            Frame::Simple("a".to_string()),
            Frame::Error("b".to_string()),
            Frame::Integer(3),
            Frame::Null,
            Frame::Bulk(Bytes::from_static(b"\r\n")),
        ]),
    ]
}

#[test]
fn each_kind_of_frame_has_its_wire_form() {
    assert_eq!(encode(&Frame::Simple("OK".to_string())), b"+OK\r\n");
    assert_eq!(encode(&Frame::Error("ERR no".to_string())), b"-ERR no\r\n");
    assert_eq!(encode(&Frame::Integer(0)), b":0\r\n");
    assert_eq!(encode(&Frame::Integer(12345)), b":12345\r\n");
    assert_eq!(encode(&Frame::Integer(u64::MAX)), b":18446744073709551615\r\n");
    assert_eq!(encode(&Frame::Bulk(Bytes::from_static(b"hello"))), b"$5\r\nhello\r\n");
    assert_eq!(encode(&Frame::Bulk(Bytes::new())), b"$0\r\n\r\n");
    assert_eq!(
        encode(&Frame::Bulk(Bytes::from_static(b"0123456789"))),
        b"$10\r\n0123456789\r\n"
    );
    assert_eq!(encode(&Frame::Null), b"$-1\r\n");
    assert_eq!(encode(&Frame::Array(vec![])), b"*0\r\n");
    assert_eq!(
        encode(&Frame::Array(vec![
            Frame::Bulk(Bytes::from_static(b"get")),
            Frame::Simple("k".to_string()),
            Frame::Integer(5),
            Frame::Null,
        ])),
        b"*4\r\n$3\r\nget\r\n+k\r\n:5\r\n$-1\r\n"
    );
}

#[test]
fn text_is_written_as_utf8() {
    assert_eq!(
        encode(&Frame::Simple("caf\u{e9}".to_string())),
        vec![b'+', b'c', b'a', b'f', 0xc3, 0xa9, b'\r', b'\n']
    );
}

#[test]
fn each_wire_form_decodes_to_its_frame() {
    let (frame, end) = decode(b"+OK\r\n");
    assert_eq!(text(&frame.unwrap()), text(&Frame::Simple("OK".to_string())));
    assert_eq!(end, 5);

    let (frame, end) = decode(b"-ERR no\r\nrest");
    assert_eq!(text(&frame.unwrap()), text(&Frame::Error("ERR no".to_string())));
    assert_eq!(end, 9);

    let (frame, end) = decode(b":12345\r\n");
    assert_eq!(text(&frame.unwrap()), text(&Frame::Integer(12345)));
    assert_eq!(end, 8);

    let (frame, end) = decode(b"$5\r\nhello\r\n");
    assert_eq!(text(&frame.unwrap()), text(&Frame::Bulk(Bytes::from_static(b"hello"))));
    assert_eq!(end, 11);

    let (frame, end) = decode(b"$0\r\n\r\n");
    assert_eq!(text(&frame.unwrap()), text(&Frame::Bulk(Bytes::new())));
    assert_eq!(end, 6);

    let (frame, end) = decode(b"$-1\r\n");
    assert_eq!(text(&frame.unwrap()), text(&Frame::Null));
    assert_eq!(end, 5);

    let (frame, end) = decode(b"*2\r\n$3\r\nget\r\n$1\r\nk\r\n+next\r\n");
    assert_eq!(
        text(&frame.unwrap()),
        text(&Frame::Array(vec![
            Frame::Bulk(Bytes::from_static(b"get")),
            Frame::Bulk(Bytes::from_static(b"k")),
        ]))
    );
    assert_eq!(end, 20);
}

#[test]
fn a_bulk_payload_is_copied_byte_for_byte() {
    let (frame, end) = decode(b"$8\r\na\r\nb\x00\xff\r\n\r\n");
    match frame.unwrap() {
        Frame::Bulk(data) => assert_eq!(&data[..], b"a\r\nb\x00\xff\r\n"),
        other => panic!("not a bulk string: {:?}", other),
    }
    assert_eq!(end, 14);
}

#[test]
fn the_two_bytes_behind_a_bulk_payload_are_not_looked_at() {
    let (done, end) = check(b"$2\r\nabXY");
    assert_eq!(done, Ok(()));
    assert_eq!(end, 8);
    let (frame, end) = decode(b"$2\r\nabXY");
    assert_eq!(text(&frame.unwrap()), text(&Frame::Bulk(Bytes::from_static(b"ab"))));
    assert_eq!(end, 8);
}

#[test]
fn decoding_gives_back_what_was_encoded() {
    for frame in samples() {
        let bytes = encode(&frame);
        let (done, end) = check(&bytes);
        assert_eq!(done, Ok(()), "{:?}", frame);
        assert_eq!(end, bytes.len() as u64, "{:?}", frame);
        let (back, end) = decode(&bytes);
        assert_eq!(text(&back.unwrap()), text(&frame));
        assert_eq!(end, bytes.len() as u64, "{:?}", frame);
    }
}

#[test]
fn a_text_with_a_line_end_in_it_does_not_come_back() {
    let frame = Frame::Simple("a\r\nb".to_string());
    let bytes = encode(&frame);
    assert_eq!(bytes, b"+a\r\nb\r\n");
    let (back, end) = decode(&bytes);
    assert_eq!(text(&back.unwrap()), text(&Frame::Simple("a".to_string())));
    assert_eq!(end, 4);
}

#[test]
fn every_strict_prefix_of_a_frame_is_incomplete() {
    for frame in samples() {
        let bytes = encode(&frame);
        for cut in 0..bytes.len() {
            let (done, _) = check(&bytes[..cut]);
            assert_eq!(done, Err(Error::IncompleteError), "{:?} cut at {}", frame, cut);
        }
    }
}

#[test]
fn bytes_behind_a_frame_do_not_change_what_is_found() {
    for frame in samples() {
        let mut bytes = encode(&frame);
        let length = bytes.len() as u64;
        bytes.extend_from_slice(b"%\r\n$");
        let (done, end) = check(&bytes);
        assert_eq!(done, Ok(()), "{:?}", frame);
        assert_eq!(end, length);
        let (back, end) = decode(&bytes);
        assert_eq!(text(&back.unwrap()), text(&frame));
        assert_eq!(end, length);
    }
}

#[test]
fn an_empty_buffer_is_incomplete() {
    assert_eq!(check(b""), (Err(Error::IncompleteError), 0));
    let (frame, end) = decode(b"");
    assert_eq!(frame.unwrap_err(), Error::IncompleteError);
    assert_eq!(end, 0);
}

#[test]
fn a_missing_line_end_is_incomplete() {
    assert_eq!(check(b"+OK").0, Err(Error::IncompleteError));
    assert_eq!(check(b"+OK\r").0, Err(Error::IncompleteError));
    assert_eq!(check(b"-").0, Err(Error::IncompleteError));
    assert_eq!(check(b":12").0, Err(Error::IncompleteError));
    assert_eq!(check(b"$").0, Err(Error::IncompleteError));
    assert_eq!(check(b"$5").0, Err(Error::IncompleteError));
    assert_eq!(check(b"*2").0, Err(Error::IncompleteError));
    assert_eq!(decode(b"+OK\r").0.unwrap_err(), Error::IncompleteError);
}

#[test]
fn a_bulk_string_shorter_than_its_length_is_incomplete() {
    assert_eq!(check(b"$5\r\nhel").0, Err(Error::IncompleteError));
    assert_eq!(check(b"$5\r\nhello").0, Err(Error::IncompleteError));
    assert_eq!(check(b"$5\r\nhello\r").0, Err(Error::IncompleteError));
    assert_eq!(check(b"$5\r\nhello\r\n").0, Ok(()));
    assert_eq!(decode(b"$5\r\nhello\r").0.unwrap_err(), Error::IncompleteError);
}

#[test]
fn a_length_that_no_buffer_can_hold_is_incomplete() {
    assert_eq!(check(b"$18446744073709551615\r\nabc\r\n").0, Err(Error::IncompleteError));
    assert_eq!(check(b"$18446744073709551614\r\nabc\r\n").0, Err(Error::IncompleteError));
    assert_eq!(
        decode(b"$18446744073709551615\r\nabc\r\n").0.unwrap_err(),
        Error::IncompleteError
    );
    assert_eq!(check(b"*18446744073709551615\r\n+a\r\n").0, Err(Error::IncompleteError));
    assert_eq!(
        decode(b"*18446744073709551615\r\n+a\r\n").0.unwrap_err(),
        Error::IncompleteError
    );
}

#[test]
fn an_array_with_fewer_frames_than_its_count_is_incomplete() {
    assert_eq!(check(b"*2\r\n+a\r\n").0, Err(Error::IncompleteError));
    assert_eq!(check(b"*2\r\n+a\r\n+b").0, Err(Error::IncompleteError));
    assert_eq!(check(b"*2\r\n+a\r\n+b\r\n"), (Ok(()), 12));
    assert_eq!(decode(b"*2\r\n+a\r\n").0.unwrap_err(), Error::IncompleteError);
}

#[test]
fn an_unknown_first_byte_is_a_protocol_error() {
    assert_eq!(check(b"%"), (Err(Error::ProtocolError { b: b'%' }), 1));
    assert_eq!(check(b"%5\r\nhello\r\n").0, Err(Error::ProtocolError { b: b'%' }));
    assert_eq!(check(b"\r\n").0, Err(Error::ProtocolError { b: b'\r' }));
    assert_eq!(decode(b"hello\r\n").0.unwrap_err(), Error::ProtocolError { b: b'h' });
    assert_eq!(check(b"*2\r\n+a\r\n!b\r\n").0, Err(Error::ProtocolError { b: b'!' }));
    assert_eq!(
        decode(b"*2\r\n+a\r\n!b\r\n").0.unwrap_err(),
        Error::ProtocolError { b: b'!' }
    );
}

#[test]
fn a_null_frame_has_to_be_exact() {
    assert_eq!(check(b"$-1\r\n"), (Ok(()), 5));
    assert_eq!(check(b"$-"), (Err(Error::IncompleteError), 1));
    assert_eq!(check(b"$-1\r"), (Err(Error::IncompleteError), 1));
    assert_eq!(check(b"$-2\r\n").0, Err(Error::ProtocolError { b: 1 }));
    assert_eq!(check(b"$-1\n\n").0, Err(Error::ProtocolError { b: 1 }));
    assert_eq!(check(b"$-10\r\n").0, Err(Error::ProtocolError { b: 1 }));
    assert_eq!(decode(b"$-2\r\n").0.unwrap_err(), Error::ProtocolError { b: 1 });
    assert_eq!(decode(b"$-10\r\n").0.unwrap_err(), Error::ProtocolError { b: 1 });
    assert_eq!(decode(b"$-\r\n").0.unwrap_err(), Error::ProtocolError { b: 1 });
    assert_eq!(decode(b"$-1").0.unwrap_err(), Error::IncompleteError);
}

#[test]
fn a_length_or_an_integer_that_is_no_number_is_a_decimal_error() {
    assert_eq!(check(b":abc\r\n").0, Err(Error::DecimalError));
    assert_eq!(check(b":\r\n").0, Err(Error::DecimalError));
    assert_eq!(check(b"$x\r\nabc\r\n").0, Err(Error::DecimalError));
    assert_eq!(check(b"*x\r\n").0, Err(Error::DecimalError));
    assert_eq!(check(b":18446744073709551616\r\n").0, Err(Error::DecimalError));
    assert_eq!(decode(b":abc\r\n").0.unwrap_err(), Error::DecimalError);
    assert_eq!(decode(b"$x\r\nabc\r\n").0.unwrap_err(), Error::DecimalError);
    assert_eq!(decode(b"*x\r\n").0.unwrap_err(), Error::DecimalError);
}

#[test]
fn a_text_that_is_not_utf8_is_an_encode_error_of_the_decoder_only() {
    assert_eq!(check(b"+\xff\xfe\r\n"), (Ok(()), 5));
    assert_eq!(decode(b"+\xff\xfe\r\n").0.unwrap_err(), Error::EncodeError);
    assert_eq!(decode(b"-\xc3\r\n").0.unwrap_err(), Error::EncodeError);
    assert_eq!(decode(b"*1\r\n+\x80\r\n").0.unwrap_err(), Error::EncodeError);
}

#[test]
fn arrays_in_arrays_are_decoded() {
    let bytes = b"*2\r\n*2\r\n:1\r\n:2\r\n*1\r\n*0\r\n";
    assert_eq!(check(bytes), (Ok(()), bytes.len() as u64));
    let (frame, end) = decode(bytes);
    let frame = frame.unwrap();
    assert_eq!(end, bytes.len() as u64);
    assert_eq!(
        text(&frame),
        text(&Frame::Array(vec![
            Frame::Array(vec![Frame::Integer(1), Frame::Integer(2)]),
            Frame::Array(vec![Frame::Array(vec![])]),
        ]))
    );
    assert!(frame.has_nested_array());
}

#[test]
fn only_an_array_in_an_array_is_nested() {
    for frame in samples() {
        assert!(!frame.has_nested_array(), "{:?}", frame);
    }
    assert!(Frame::Array(vec![Frame::Null, Frame::Array(vec![])]).has_nested_array());
    assert!(Frame::Array(vec![Frame::Array(vec![Frame::Null]), Frame::Null]).has_nested_array());
}

#[test]
fn a_clone_is_a_deep_copy() {
    for frame in samples() {
        assert_eq!(text(&frame.clone()), text(&frame));
    }
    let nested = Frame::Array(vec![Frame::Array(vec![Frame::Bulk(Bytes::from_static(b"x"))])]);
    assert_eq!(text(&nested.clone()), text(&nested));
}

#[test]
fn the_decoder_starts_where_the_cursor_stands() {
    let bytes = b"+a\r\n:5\r\n";
    let mut src = Cursor::new(&bytes[..]);
    src.set_position(4);
    assert_eq!(Frame::check(&mut src), Ok(()));
    assert_eq!(src.position(), 8);
    src.set_position(4);
    assert_eq!(text(&Frame::parse(&mut src).unwrap()), text(&Frame::Integer(5)));
    assert_eq!(src.position(), 8);
    src.set_position(100);
    assert_eq!(Frame::check(&mut src), Err(Error::IncompleteError));
}

#[test]
fn integers_lengths_and_counts_are_digits_and_nothing_else() {
    let refused: [&[u8]; 14] = [
        b":+7\r\n",
        b":-7\r\n",
        b":-0\r\n",
        b":7up\r\n",
        b":+\r\n",
        b":-\r\n",
        b": 7\r\n",
        b"$+1\r\na\r\n",
        b"$1x\r\na\r\n",
        b"$ 1\r\na\r\n",
        b"*-\r\n",
        b"*+1\r\n:1\r\n",
        b"*1 \r\n:1\r\n",
        b"*1\r\n:1x\r\n",
    ];
    for bytes in refused {
        assert_eq!(check(bytes).0, Err(Error::DecimalError), "{:?}", bytes);
        assert_eq!(decode(bytes).0.unwrap_err(), Error::DecimalError, "{:?}", bytes);
    }
    assert_eq!(text(&decode(b":007\r\n").0.unwrap()), text(&Frame::Integer(7)));
    assert_eq!(text(&decode(b"$01\r\na\r\n").0.unwrap()), text(&Frame::Bulk(Bytes::from_static(b"a"))));
    assert_eq!(text(&decode(b"*00\r\n").0.unwrap()), text(&Frame::Array(vec![])));
}

#[test]
fn a_frame_is_decoded_from_its_own_bytes_wherever_they_stand() {
    for frame in samples() {
        let own = encode(&frame);
        let mut bytes = b"%%junk\r\n".to_vec();
        let start = bytes.len() as u64;
        bytes.extend_from_slice(&own);
        bytes.extend_from_slice(b"\r\n-1\r\n");
        let mut src = Cursor::new(&bytes[..]);
        src.set_position(start);
        assert_eq!(Frame::check(&mut src), Ok(()), "{:?}", frame);
        assert_eq!(src.position(), start + own.len() as u64);
        src.set_position(start);
        assert_eq!(text(&Frame::parse(&mut src).unwrap()), text(&frame));
        assert_eq!(src.position(), start + own.len() as u64);
    }
}
