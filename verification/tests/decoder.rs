//! Decoding a grammar whose single header kind is a one-letter tag with a
//! digit run: zero to three headers, a separator line, and no body.

use framedec::config::Config;
use framedec::engine::{decode_chunks, decode_once};
use framedec::report::describe;

fn digit_header_config() -> Config {
    Config::new(b"f".to_vec(), None, 0, 3, false, 0).unwrap()
}

#[test]
fn test_no_foobaz() {
    let cfg = digit_header_config();
    assert_eq!(Ok(Some((Vec::new(), 6))), decode_once(&cfg, b"f1\r\n\r\nabcd"));
}

#[test]
fn test_invalid_header() {
    let cfg = digit_header_config();
    let err = decode_once(&cfg, b"foobac\r\n\r\nabcdefg\r\n").unwrap_err();
    assert!(describe(&err).contains("Unexpected"));
}

#[test]
fn test_invalid_header_after_valid_header() {
    let cfg = digit_header_config();
    let err = decode_once(&cfg, b"f1\r\nj\r\nabcdefg\r\n").unwrap_err();
    assert!(describe(&err).contains("Unexpected `j`"));
}

#[test]
fn test_decode_partial_does_same_as_decode() {
    let cfg = digit_header_config();
    assert_eq!(
        Ok(Some(Vec::new())),
        decode_chunks(&cfg, &vec![b"f1\r\n\r\nabcdefg\r\n".to_vec()])
    );
    assert_eq!(Ok(Some((Vec::new(), 6))), decode_once(&cfg, b"f1\r\n\r\nabcdefg\r\n"));
}

#[test]
fn test_partial_split_after_number_of_foobar() {
    let cfg = digit_header_config();
    assert_eq!(
        Ok(Some(Vec::new())),
        decode_chunks(&cfg, &vec![b"f12\r\n".to_vec(), b"\r\nabcdefg\r\n".to_vec()])
    );
}

#[test]
fn test_partial_split_inbetween_number_of_foobar() {
    let cfg = digit_header_config();
    assert_eq!(
        Ok(Some(Vec::new())),
        decode_chunks(&cfg, &vec![b"f1".to_vec(), b"2\r\n\r\nabcdefg\r\n".to_vec()])
    );
}
