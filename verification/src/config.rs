//! The grammar configuration: which header kinds exist and what bounds hold.
//!
//! A frame is `Header{min,max} CRLF [Body CRLF]`. Header kind A is a literal
//! tag followed by one or more decimal digits and CRLF; header kind B, when
//! present, is a literal tag followed by CRLF alone. The two kinds may occur
//! in any order. When `has_body` is set, the frame ends with an arbitrary
//! byte run terminated by CRLF; otherwise it ends at the separator line.

use vstd::prelude::*;

verus! {

/// Carriage return, the first byte of the line terminator.
pub const CR: u8 = 13;
/// Line feed, the second byte of the line terminator.
pub const LF: u8 = 10;

/// Mathematical view of a [`Config`].
pub struct SpecConfig {
    pub tag_a: Seq<u8>,
    pub tag_b: Option<Seq<u8>>,
    pub min_headers: int,
    pub max_headers: int,
    pub has_body: bool,
    pub max_body: int,
}

/// No byte of `s` takes part in a line terminator.
pub open spec fn no_line_break(s: Seq<u8>) -> bool {
    forall|i: int| 0 <= i < s.len() ==> s[i] != CR && s[i] != LF
}

impl SpecConfig {
    /// A well-formed grammar: non-empty tags free of terminator bytes, and
    /// an ordered repetition bound. The decoder itself is total over any
    /// configuration; well-formedness is what the decoding laws assume.
    pub open spec fn wf(self) -> bool {
        &&& 0 < self.tag_a.len() < usize::MAX
        &&& no_line_break(self.tag_a)
        &&& match self.tag_b {
            Some(t) => 0 < t.len() < usize::MAX && no_line_break(t),
            None => true,
        }
        &&& 0 <= self.min_headers <= self.max_headers
    }
}

/// The grammar parameters handed to the decode engine.
pub struct Config {
    pub tag_a: Vec<u8>,
    pub tag_b: Option<Vec<u8>>,
    pub min_headers: usize,
    pub max_headers: usize,
    pub has_body: bool,
    pub max_body: usize,
}

/// The view a pair of tag vectors would have as configuration tags.
pub open spec fn spec_tag_b(tag_b: Option<Vec<u8>>) -> Option<Seq<u8>> {
    match tag_b {
        Some(t) => Some(t@),
        None => None,
    }
}

impl View for Config {
    type V = SpecConfig;

    open spec fn view(&self) -> SpecConfig {
        SpecConfig {
            tag_a: self.tag_a@,
            tag_b: spec_tag_b(self.tag_b),
            min_headers: self.min_headers as int,
            max_headers: self.max_headers as int,
            has_body: self.has_body,
            max_body: self.max_body as int,
        }
    }
}

/// True when some byte of `v` is a terminator byte.
fn has_line_break(v: &Vec<u8>) -> (r: bool)
    ensures
        r == !no_line_break(v@),
{
    let mut i: usize = 0;
    while i < v.len()
        invariant
            0 <= i <= v@.len(),
            forall|j: int| 0 <= j < i ==> v@[j] != CR && v@[j] != LF,
        decreases v@.len() - i,
    {
        if v[i] == CR || v[i] == LF {
            return true;
        }
        i = i + 1;
    }
    false
}

impl Config {
    /// Builds a configuration, validating it: the result is `Some` exactly
    /// when the parameters form a well-formed grammar.
    pub fn new(
        tag_a: Vec<u8>,
        tag_b: Option<Vec<u8>>,
        min_headers: usize,
        max_headers: usize,
        has_body: bool,
        max_body: usize,
    ) -> (r: Option<Config>)
        ensures
            ({
                let m = SpecConfig {
                    tag_a: tag_a@,
                    tag_b: spec_tag_b(tag_b),
                    min_headers: min_headers as int,
                    max_headers: max_headers as int,
                    has_body,
                    max_body: max_body as int,
                };
                match r {
                    Some(c) => c@ == m && m.wf(),
                    None => !m.wf(),
                }
            }),
    {
        if tag_a.len() == 0 || tag_a.len() == usize::MAX || has_line_break(&tag_a) {
            return None;
        }
        match &tag_b {
            Some(t) => {
                if t.len() == 0 || t.len() == usize::MAX || has_line_break(t) {
                    return None;
                }
            }
            None => {}
        }
        if min_headers > max_headers {
            return None;
        }
        Some(Config { tag_a, tag_b, min_headers, max_headers, has_body, max_body })
    }
}

} // verus!
