//! Decode errors and their human-readable rendering.
//!
//! An error carries a kind and the byte offset, counted in the coordinate
//! system of the whole stream fed so far (not of any single chunk), at which
//! the failure was detected. Rendering shows a printable offending byte as
//! itself and any other byte as a hexadecimal escape.

use vstd::prelude::*;
use vstd::string::StringExecFns;

verus! {

/// Why a decode can never succeed, whatever bytes arrive later.
#[derive(Clone, Copy, Debug, PartialEq, Eq, Structural)]
pub enum ErrorKind {
    /// A byte in the buffer violates every grammar alternative at its position.
    UnexpectedToken { found: u8 },
    /// The header block ended before the minimum number of header repetitions.
    MissingHeader,
    /// The body grew beyond the configured maximum length.
    BodyTooLarge,
}

/// A terminal decode failure: its kind and the stream offset where it was found.
#[derive(Clone, Copy, Debug, PartialEq, Eq, Structural)]
pub struct DecodeError {
    pub kind: ErrorKind,
    pub offset: usize,
}

/// Mathematical view of a [`DecodeError`], with an unbounded offset.
pub struct SpecError {
    pub kind: ErrorKind,
    pub offset: int,
}

impl View for DecodeError {
    type V = SpecError;

    open spec fn view(&self) -> SpecError {
        SpecError { kind: self.kind, offset: self.offset as int }
    }
}

/// The character for one digit value, in base ten or sixteen.
pub open spec fn digit_char(d: int) -> char {
    if d == 0 {
        '0'
    } else if d == 1 {
        '1'
    } else if d == 2 {
        '2'
    } else if d == 3 {
        '3'
    } else if d == 4 {
        '4'
    } else if d == 5 {
        '5'
    } else if d == 6 {
        '6'
    } else if d == 7 {
        '7'
    } else if d == 8 {
        '8'
    } else if d == 9 {
        '9'
    } else if d == 10 {
        'a'
    } else if d == 11 {
        'b'
    } else if d == 12 {
        'c'
    } else if d == 13 {
        'd'
    } else if d == 14 {
        'e'
    } else {
        'f'
    }
}

/// The decimal rendering of a non-negative number, most significant digit
/// first.
pub open spec fn dec_chars(n: int) -> Seq<char>
    decreases n,
{
    if n < 10 {
        seq![digit_char(n)]
    } else {
        dec_chars(n / 10) + seq![digit_char(n % 10)]
    }
}

/// The rendering of the offending byte: itself when printable, otherwise a
/// hexadecimal escape.
pub open spec fn byte_chars(b: u8) -> Seq<char> {
    if 32 <= b <= 126 {
        seq![b as char]
    } else {
        seq!['\\', 'x', digit_char(b as int / 16), digit_char(b as int % 16)]
    }
}

/// The full diagnostic text for an error.
pub open spec fn error_chars(e: DecodeError) -> Seq<char> {
    match e.kind {
        ErrorKind::UnexpectedToken { found } => "Unexpected `"@ + byte_chars(found)
            + "` at offset "@ + dec_chars(e.offset as int),
        ErrorKind::MissingHeader => "Missing header at offset "@ + dec_chars(e.offset as int),
        ErrorKind::BodyTooLarge => "Body too large at offset "@ + dec_chars(e.offset as int),
    }
}

/// The one-character string of one digit.
fn digit_char_str(d: u8) -> (r: &'static str)
    requires
        d < 16,
    ensures
        r@ == seq![digit_char(d as int)],
{
    proof {
        reveal_strlit("0");
        reveal_strlit("1");
        reveal_strlit("2");
        reveal_strlit("3");
        reveal_strlit("4");
        reveal_strlit("5");
        reveal_strlit("6");
        reveal_strlit("7");
        reveal_strlit("8");
        reveal_strlit("9");
        reveal_strlit("a");
        reveal_strlit("b");
        reveal_strlit("c");
        reveal_strlit("d");
        reveal_strlit("e");
        reveal_strlit("f");
    }
    let r: &'static str = if d == 0 {
        "0"
    } else if d == 1 {
        "1"
    } else if d == 2 {
        "2"
    } else if d == 3 {
        "3"
    } else if d == 4 {
        "4"
    } else if d == 5 {
        "5"
    } else if d == 6 {
        "6"
    } else if d == 7 {
        "7"
    } else if d == 8 {
        "8"
    } else if d == 9 {
        "9"
    } else if d == 10 {
        "a"
    } else if d == 11 {
        "b"
    } else if d == 12 {
        "c"
    } else if d == 13 {
        "d"
    } else if d == 14 {
        "e"
    } else {
        "f"
    };
    proof {
        assert(r@ =~= seq![digit_char(d as int)]);
    }
    r
}

/// Appends the decimal rendering of `n`.
fn push_decimal(s: &mut String, n: usize)
    ensures
        final(s)@ == old(s)@ + dec_chars(n as int),
    decreases n,
{
    if n < 10 {
        s.append(digit_char_str(n as u8));
    } else {
        push_decimal(s, n / 10);
        s.append(digit_char_str((n % 10) as u8));
        proof {
            assert(old(s)@ + dec_chars(n as int) =~= (old(s)@ + dec_chars(n as int / 10)) + seq![
                digit_char(n as int % 10),
            ]);
        }
    }
}

/// Relies on `alloc`'s `ToString` for `char`: the string of an ASCII
/// character is that single character.
#[verifier::external_body]
fn one_byte_string(b: u8) -> (r: String)
    requires
        b < 128,
    ensures
        r@ == seq![b as char],
{
    (b as char).to_string()
}

/// Appends the rendering of the offending byte.
fn push_byte_repr(s: &mut String, b: u8)
    ensures
        final(s)@ == old(s)@ + byte_chars(b),
{
    if 32 <= b && b <= 126 {
        let one = one_byte_string(b);
        s.append(one.as_str());
    } else {
        s.append("\\x");
        s.append(digit_char_str(b / 16));
        s.append(digit_char_str(b % 16));
        proof {
            reveal_strlit("\\x");
            assert(old(s)@ + byte_chars(b) =~= ((old(s)@ + "\\x"@) + seq![
                digit_char(b as int / 16),
            ]) + seq![digit_char(b as int % 16)]);
        }
    }
}

/// Renders an error as a diagnostic line, for example
/// ``Unexpected `j` at offset 4``.
pub fn describe(e: &DecodeError) -> (r: String)
    ensures
        r@ == error_chars(*e),
{
    let mut s = String::new();
    match e.kind {
        ErrorKind::UnexpectedToken { found } => {
            s.append("Unexpected `");
            push_byte_repr(&mut s, found);
            s.append("` at offset ");
            push_decimal(&mut s, e.offset);
            proof {
                assert(s@ =~= error_chars(*e));
            }
        }
        ErrorKind::MissingHeader => {
            s.append("Missing header at offset ");
            push_decimal(&mut s, e.offset);
            proof {
                assert(s@ =~= error_chars(*e));
            }
        }
        ErrorKind::BodyTooLarge => {
            s.append("Body too large at offset ");
            push_decimal(&mut s, e.offset);
            proof {
                assert(s@ =~= error_chars(*e));
            }
        }
    }
    s
}

} // verus!
