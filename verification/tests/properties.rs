//! The decoder's behavior on the reference grammar: one or two headers of
//! `foobar<digits>` or `foobaz` in either order, a separator line, and a
//! terminated body.

use framedec::accumulator::Accumulator;
use framedec::config::Config;
use framedec::engine::{decode_chunks, decode_once, decode_step, ResumableState};
use framedec::report::{describe, DecodeError, ErrorKind};

fn reference_config() -> Config {
    Config::new(b"foobar".to_vec(), Some(b"foobaz".to_vec()), 1, 2, true, 4096).unwrap()
}

#[test]
fn scenario_both_headers() {
    let cfg = reference_config();
    assert_eq!(
        Ok(Some((b"abcdefg".to_vec(), 28))),
        decode_once(&cfg, b"foobar1\r\nfoobaz\r\n\r\nabcdefg\r\n")
    );
}

#[test]
fn scenario_swapped_headers_same_message() {
    let cfg = reference_config();
    assert_eq!(
        Ok(Some((b"abcdefg".to_vec(), 28))),
        decode_once(&cfg, b"foobaz\r\nfoobar1\r\n\r\nabcdefg\r\n")
    );
}

#[test]
fn scenario_unterminated_body_suspends() {
    let cfg = reference_config();
    assert_eq!(Ok(None), decode_once(&cfg, b"foobar1\r\nfoobaz\r\n\r\n"));
}

#[test]
fn scenario_bad_header_byte() {
    let cfg = reference_config();
    let err = decode_once(&cfg, b"foobac\r\n\r\nabcdefg\r\n").unwrap_err();
    assert_eq!(
        DecodeError { kind: ErrorKind::UnexpectedToken { found: b'c' }, offset: 5 },
        err
    );
    assert_eq!("Unexpected `c` at offset 5", describe(&err));
}

#[test]
fn scenario_split_mid_token() {
    let cfg = reference_config();
    assert_eq!(
        Ok(Some(b"abcdefg".to_vec())),
        decode_chunks(
            &cfg,
            &vec![b"foobar1".to_vec(), b"2\r\nfoobaz\r\n\r\nabcdefg\r\n".to_vec()]
        )
    );
}

#[test]
fn chunk_invariance_over_every_split() {
    let cfg = reference_config();
    let input: &[u8] = b"foobaz\r\nfoobar42\r\n\r\nhello world\r\n";
    let whole = decode_once(&cfg, input).unwrap().unwrap().0;
    for cut in 1..input.len() {
        let chunks = vec![input[..cut].to_vec(), input[cut..].to_vec()];
        assert_eq!(Ok(Some(whole.clone())), decode_chunks(&cfg, &chunks));
    }
    let bytewise: Vec<Vec<u8>> = input.iter().map(|b| vec![*b]).collect();
    assert_eq!(Ok(Some(whole)), decode_chunks(&cfg, &bytewise));
}

#[test]
fn missing_header_reported() {
    let cfg = reference_config();
    let err = decode_once(&cfg, b"\r\nabcdefg\r\n").unwrap_err();
    assert_eq!(DecodeError { kind: ErrorKind::MissingHeader, offset: 0 }, err);
    assert_eq!("Missing header at offset 0", describe(&err));
}

#[test]
fn repetitions_beyond_maximum_rejected() {
    let cfg = reference_config();
    let err = decode_once(&cfg, b"foobar1\r\nfoobaz\r\nfoobar2\r\n\r\nbody\r\n").unwrap_err();
    assert_eq!(
        DecodeError { kind: ErrorKind::UnexpectedToken { found: b'f' }, offset: 17 },
        err
    );
    assert_eq!("Unexpected `f` at offset 17", describe(&err));
}

#[test]
fn exactly_minimum_headers_succeed() {
    let cfg = reference_config();
    assert_eq!(Ok(Some((b"hi".to_vec(), 14))), decode_once(&cfg, b"foobaz\r\n\r\nhi\r\n"));
}

#[test]
fn suspended_state_accepts_zero_bytes() {
    let cfg = reference_config();
    let mut state = ResumableState::new(cfg);
    assert_eq!(Ok(None), decode_step(&mut state, b"foobar1"));
    assert_eq!(Ok(None), decode_step(&mut state, b""));
    assert_eq!(Ok(None), decode_step(&mut state, b""));
    assert_eq!(
        Ok(Some(b"x".to_vec())),
        decode_step(&mut state, b"\r\nfoobaz\r\n\r\nx\r\n")
    );
}

#[test]
fn consumed_length_starts_next_frame() {
    let cfg = reference_config();
    let stream: &[u8] = b"foobaz\r\n\r\nfirst\r\nfoobar7\r\n\r\nsecond\r\n";
    let (msg, n) = decode_once(&cfg, stream).unwrap().unwrap();
    assert_eq!(b"first".to_vec(), msg);
    assert_eq!(17, n);
    let (msg2, n2) = decode_once(&cfg, &stream[n..]).unwrap().unwrap();
    assert_eq!(b"second".to_vec(), msg2);
    assert_eq!(stream.len() - n, n2);
}

#[test]
fn body_beyond_maximum_rejected() {
    let cfg = Config::new(b"foobar".to_vec(), Some(b"foobaz".to_vec()), 1, 2, true, 4).unwrap();
    let err = decode_once(&cfg, b"foobaz\r\n\r\nabcdefg\r\n").unwrap_err();
    assert_eq!(DecodeError { kind: ErrorKind::BodyTooLarge, offset: 14 }, err);
    assert_eq!("Body too large at offset 14", describe(&err));
}

#[test]
fn body_keeps_lone_carriage_returns() {
    let cfg = reference_config();
    assert_eq!(
        Ok(Some((b"a\rb".to_vec(), 15))),
        decode_once(&cfg, b"foobaz\r\n\r\na\rb\r\n")
    );
}

#[test]
fn unprintable_byte_rendered_as_escape() {
    let cfg = reference_config();
    let err = decode_once(&cfg, b"\x01foobaz\r\n\r\nhi\r\n").unwrap_err();
    assert_eq!(
        DecodeError { kind: ErrorKind::UnexpectedToken { found: 1 }, offset: 0 },
        err
    );
    assert_eq!("Unexpected `\\x01` at offset 0", describe(&err));
}

#[test]
fn resumable_state_resets_for_next_frame() {
    let cfg = reference_config();
    let mut state = ResumableState::new(cfg);
    assert_eq!(
        Ok(Some(b"one".to_vec())),
        decode_step(&mut state, b"foobaz\r\n\r\none\r\n")
    );
    state.reset();
    assert_eq!(
        Ok(Some(b"two".to_vec())),
        decode_step(&mut state, b"foobar9\r\n\r\ntwo\r\n")
    );
}

#[test]
fn accumulator_appends_and_consumes_in_order() {
    let mut acc = Accumulator::new();
    acc.append(b"foobaz\r\n");
    acc.append(b"\r\nhi\r\n");
    assert_eq!(14, acc.len());
    assert_eq!(b"foobaz\r\n\r\nhi\r\n", acc.as_slice());
    let cfg = reference_config();
    let (msg, n) = decode_once(&cfg, acc.as_slice()).unwrap().unwrap();
    assert_eq!(b"hi".to_vec(), msg);
    acc.consume(n);
    assert_eq!(0, acc.len());
}

#[test]
fn config_rejects_malformed_grammars() {
    assert!(Config::new(Vec::new(), None, 0, 1, true, 16).is_none());
    assert!(Config::new(b"a\rb".to_vec(), None, 0, 1, true, 16).is_none());
    assert!(Config::new(b"ok".to_vec(), Some(b"x\n".to_vec()), 0, 1, true, 16).is_none());
    assert!(Config::new(b"ok".to_vec(), None, 3, 2, true, 16).is_none());
    assert!(Config::new(b"ok".to_vec(), Some(b"also".to_vec()), 1, 2, true, 16).is_some());
}
