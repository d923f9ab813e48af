use std::io::Cursor;

use rmr::decimal::{is_number_text, parse_number};
use rmr::frame::{get_decimal, get_line, get_u8, peek_u8, skip, Error};

#[test]
fn ts_err_get_line() {
    // should end of \r\n
    let v = vec![b'1', b'2'];
    let mut buff = Cursor::new(&v[..]);

    buff.set_position(0);
    assert!(get_line(&mut buff).is_err());

    // should not be an empty buff
    let v_empty: Vec<u8> = Vec::new();
    let mut buff_empty = Cursor::new(&v_empty[..]);

    buff_empty.set_position(0);
    assert!(get_line(&mut buff_empty).is_err());
}

#[test]
fn ts_on_get_line() {
    let v = vec![b'1', b'2', b'\r', b'\n', b'5', b'\r', b'\n'];
    let mut buff = Cursor::new(&v[..]);

    // with the position at the end of the buffer there is no line
    buff.set_position(v.len().try_into().unwrap());
    assert!(get_line(&mut buff).is_err());

    // back to the start of the buffer
    buff.set_position(0);
    assert_eq!(buff.position(), 0);

    // get the first line
    let line = get_line(&mut buff).unwrap().to_vec();
    // Convert the first line to a String
    let line_str = String::from_utf8(line).unwrap();

    assert_eq!(line_str, "12");
    assert_eq!(buff.position(), 4);

    // get the 2nd line
    let line_2 = get_line(&mut buff).unwrap().to_vec();
    // Convert the 2nd line to a String
    let line_str_2 = String::from_utf8(line_2).unwrap();

    assert_eq!(line_str_2, "5");
    assert_eq!(buff.position(), 7);
}

#[test]
fn ts_on_get_u8() {
    let v = vec![b'1', b'2', b'3', b'4', b'5'];
    let mut buff = Cursor::new(&v[..]);

    // with the position at the end of the buffer there is no byte
    buff.set_position(v.len().try_into().unwrap());
    assert!(get_u8(&mut buff).is_err());

    // back to the start of the buffer
    buff.set_position(0);

    // take one byte after the other
    assert_eq!(get_u8(&mut buff).unwrap(), b'1');
    assert_eq!(get_u8(&mut buff).unwrap(), b'2');
    assert_eq!(get_u8(&mut buff).unwrap(), b'3');
    assert_eq!(get_u8(&mut buff).unwrap(), b'4');
    assert_eq!(get_u8(&mut buff).unwrap(), b'5');
}

#[test]
fn ts_on_peek_u8() {
    let v = vec![b'1', b'2', b'3', b'4', b'5'];
    let mut buff = Cursor::new(&v[..]);

    // with the position at the end of the buffer there is no byte
    buff.set_position(v.len().try_into().unwrap());
    assert!(peek_u8(&mut buff).is_err());

    // position 3, counted from 0
    buff.set_position(3);

    // the byte at position 3
    assert_eq!(peek_u8(&mut buff).unwrap(), b'4');
}

#[test]
fn get_u8_past_the_end_is_incomplete_and_keeps_the_position() {
    let v = vec![b'a'];
    let mut buff = Cursor::new(&v[..]);
    buff.set_position(9);
    assert_eq!(get_u8(&mut buff), Err(Error::IncompleteError));
    assert_eq!(buff.position(), 9);
}

#[test]
fn peek_u8_keeps_the_position() {
    let v = vec![b'a', b'b'];
    let mut buff = Cursor::new(&v[..]);
    buff.set_position(1);
    assert_eq!(peek_u8(&mut buff), Ok(b'b'));
    assert_eq!(buff.position(), 1);
}

#[test]
fn skip_moves_by_the_count_or_not_at_all() {
    let v = b"abcdef".to_vec();
    let mut buff = Cursor::new(&v[..]);
    assert_eq!(skip(&mut buff, 4), Ok(()));
    assert_eq!(buff.position(), 4);
    assert_eq!(skip(&mut buff, 3), Err(Error::IncompleteError));
    assert_eq!(buff.position(), 4);
    assert_eq!(skip(&mut buff, 2), Ok(()));
    assert_eq!(buff.position(), 6);
    assert_eq!(skip(&mut buff, 0), Ok(()));
    assert_eq!(buff.position(), 6);
}

#[test]
fn get_line_stops_at_the_first_line_end() {
    let v = b"a\rb\nc\r\n\r\nrest".to_vec();
    let mut buff = Cursor::new(&v[..]);
    assert_eq!(get_line(&mut buff).unwrap(), b"a\rb\nc");
    assert_eq!(buff.position(), 7);
    assert_eq!(get_line(&mut buff).unwrap(), b"");
    assert_eq!(buff.position(), 9);
    assert_eq!(get_line(&mut buff), Err(Error::IncompleteError));
    assert_eq!(buff.position(), 9);
}

#[test]
fn get_line_needs_both_bytes_of_the_line_end() {
    let v = b"abc\r".to_vec();
    let mut buff = Cursor::new(&v[..]);
    assert_eq!(get_line(&mut buff), Err(Error::IncompleteError));
    assert_eq!(buff.position(), 0);
}

#[test]
fn get_decimal_reads_the_number_on_the_line() {
    let v = b"1234\r\n0\r\n18446744073709551615\r\n".to_vec();
    let mut buff = Cursor::new(&v[..]);
    assert_eq!(get_decimal(&mut buff), Ok(1234));
    assert_eq!(buff.position(), 6);
    assert_eq!(get_decimal(&mut buff), Ok(0));
    assert_eq!(buff.position(), 9);
    assert_eq!(get_decimal(&mut buff), Ok(u64::MAX));
    assert_eq!(buff.position(), 31);
}

#[test]
fn get_decimal_without_a_number_is_a_decimal_error_past_the_line() {
    let v = b"abc\r\n7\r\n".to_vec();
    let mut buff = Cursor::new(&v[..]);
    assert_eq!(get_decimal(&mut buff), Err(Error::DecimalError));
    assert_eq!(buff.position(), 5);
    assert_eq!(get_decimal(&mut buff), Ok(7));
}

#[test]
fn get_decimal_without_a_line_is_incomplete() {
    let v = b"123".to_vec();
    let mut buff = Cursor::new(&v[..]);
    assert_eq!(get_decimal(&mut buff), Err(Error::IncompleteError));
    assert_eq!(buff.position(), 0);
}

#[test]
fn get_decimal_takes_digits_and_nothing_else() {
    let cases: Vec<(&[u8], Result<u64, Error>)> = vec![
        (b"0\r\n", Ok(0)),
        (b"42\r\n", Ok(42)),
        (b"0042\r\n", Ok(42)),
        (b"00000000000000000000000001\r\n", Ok(1)),
        (b"18446744073709551615\r\n", Ok(u64::MAX)),
        (b"18446744073709551616\r\n", Err(Error::DecimalError)),
        (b"99999999999999999999999\r\n", Err(Error::DecimalError)),
        (b"\r\n", Err(Error::DecimalError)),
        (b"12x\r\n", Err(Error::DecimalError)),
        (b"42 apples\r\n", Err(Error::DecimalError)),
        (b"x1\r\n", Err(Error::DecimalError)),
        (b" 1\r\n", Err(Error::DecimalError)),
        (b"1 \r\n", Err(Error::DecimalError)),
        (b"1\r\r\n", Err(Error::DecimalError)),
        (b"+\r\n", Err(Error::DecimalError)),
        (b"-\r\n", Err(Error::DecimalError)),
        (b"+42\r\n", Err(Error::DecimalError)),
        (b"+0\r\n", Err(Error::DecimalError)),
        (b"-0\r\n", Err(Error::DecimalError)),
        (b"-1\r\n", Err(Error::DecimalError)),
        (b"1.5\r\n", Err(Error::DecimalError)),
        (b"0x10\r\n", Err(Error::DecimalError)),
        (b"1\x00\r\n", Err(Error::DecimalError)),
        (b"/1\r\n", Err(Error::DecimalError)),
        (b":1\r\n", Err(Error::DecimalError)),
    ];
    for (text, expected) in cases {
        let mut buff = Cursor::new(text);
        assert_eq!(get_decimal(&mut buff), expected, "{:?}", text);
        assert_eq!(buff.position(), text.len() as u64, "{:?}", text);
    }
}

#[test]
fn a_number_with_something_behind_it_is_a_decimal_error_not_incomplete() {
    let v = b"12x\r\n".to_vec();
    let mut buff = Cursor::new(&v[..]);
    assert_eq!(get_decimal(&mut buff), Err(Error::DecimalError));
    assert_eq!(buff.position(), 5);
}

#[test]
fn parse_number_reads_what_the_wire_spells() {
    assert_eq!(parse_number(b"7"), Some(7));
    assert_eq!(parse_number(b"007"), Some(7));
    assert_eq!(parse_number(b"18446744073709551615"), Some(u64::MAX));
    assert_eq!(parse_number(b"18446744073709551616"), None);
    assert_eq!(parse_number(b""), None);
    assert_eq!(parse_number(b"+7"), None);
    assert_eq!(parse_number(b"-7"), None);
    assert_eq!(parse_number(b"-"), None);
    assert_eq!(parse_number(b"7up"), None);
    assert!(is_number_text(b"0123456789"));
    assert!(!is_number_text(b""));
    assert!(!is_number_text(b"12/"));
    assert!(!is_number_text(b"12:"));
}
