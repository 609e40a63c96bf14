//! The resumable decode engine as an explicit byte-at-a-time state machine.
//!
//! Rather than backtracking over alternatives, the header recognizer races
//! the three possibilities of each repetition slot — header kind A, header
//! kind B, and the block terminator — one byte at a time, so a chunk
//! boundary can fall anywhere without losing partial progress. The ghost
//! functions [`step`] and [`run`] are the mathematical model of the engine;
//! the executable [`State`] mirrors them exactly.

use vstd::prelude::*;

use crate::config::{Config, SpecConfig, CR, LF};
use crate::report::{DecodeError, ErrorKind, SpecError};

verus! {

/// Progress of one grammar alternative within the current repetition slot.
///
/// An alternative is a literal tag, then (for header kind A) one or more
/// decimal digits, then CR LF. `Lit(i)` has matched `i` bytes of the tag;
/// `Dig0` expects the first digit; `Dig1` is inside the digit run; `Cr`
/// expects the carriage return; `Lf` expects the line feed; `Hit` is a
/// complete match, and `Dead` a failed one.
#[derive(Clone, Copy, Debug, PartialEq, Eq, Structural)]
pub enum Branch {
    Dead,
    Lit(usize),
    Dig0,
    Dig1,
    Cr,
    Lf,
    Hit,
}

/// An ASCII decimal digit.
pub open spec fn is_digit(b: u8) -> bool {
    48 <= b <= 57
}

/// The phase an alternative starts a slot in: its tag when it has one,
/// else its digit run, else the terminator.
pub open spec fn branch_start(lit: Seq<u8>, dig: bool) -> Branch {
    if lit.len() > 0 {
        Branch::Lit(0)
    } else if dig {
        Branch::Dig0
    } else {
        Branch::Cr
    }
}

/// One byte of progress for a single alternative with tag `lit` and, when
/// `dig` holds, a mandatory digit run before its line terminator.
pub open spec fn branch_step(lit: Seq<u8>, dig: bool, ph: Branch, byte: u8) -> Branch {
    match ph {
        Branch::Dead => Branch::Dead,
        Branch::Lit(i) => if i < lit.len() && byte == lit[i as int] {
            if i + 1 == lit.len() {
                if dig {
                    Branch::Dig0
                } else {
                    Branch::Cr
                }
            } else {
                Branch::Lit((i + 1) as usize)
            }
        } else {
            Branch::Dead
        },
        Branch::Dig0 => if is_digit(byte) {
            Branch::Dig1
        } else {
            Branch::Dead
        },
        Branch::Dig1 => if is_digit(byte) {
            Branch::Dig1
        } else if byte == CR {
            Branch::Lf
        } else {
            Branch::Dead
        },
        Branch::Cr => if byte == CR {
            Branch::Lf
        } else {
            Branch::Dead
        },
        Branch::Lf => if byte == LF {
            Branch::Hit
        } else {
            Branch::Dead
        },
        Branch::Hit => Branch::Dead,
    }
}

/// Ghost phase of the engine: scanning the header block, reading the body,
/// finished with a frame, or failed for good.
pub enum SpecPhase {
    Headers { reps: int, start: int, a: Branch, b: Branch, t: Branch },
    InBody { pending: bool },
    Finished { used: int },
    Failed { err: SpecError },
}

/// Ghost state of the engine: its phase, the body bytes collected so far,
/// and how many bytes of the stream have been consumed in total.
pub struct SpecState {
    pub phase: SpecPhase,
    pub body: Seq<u8>,
    pub total: int,
}

/// Header kind A at the start of a slot: attempted only under the
/// repetition bound.
pub open spec fn slot_a(c: SpecConfig, reps: int) -> Branch {
    if reps < c.max_headers {
        branch_start(c.tag_a, true)
    } else {
        Branch::Dead
    }
}

/// Header kind B at the start of a slot: attempted only when configured
/// and under the repetition bound.
pub open spec fn slot_b(c: SpecConfig, reps: int) -> Branch {
    match c.tag_b {
        Some(t) => if reps < c.max_headers {
            branch_start(t, false)
        } else {
            Branch::Dead
        },
        None => Branch::Dead,
    }
}

/// A fresh repetition slot beginning at stream offset `start` after `reps`
/// complete headers.
pub open spec fn fresh_headers(c: SpecConfig, reps: int, start: int) -> SpecPhase {
    SpecPhase::Headers { reps, start, a: slot_a(c, reps), b: slot_b(c, reps), t: Branch::Cr }
}

/// The state a decode of a new frame starts from.
pub open spec fn init(c: SpecConfig) -> SpecState {
    SpecState { phase: fresh_headers(c, 0, 0), body: Seq::empty(), total: 0 }
}

/// One byte of progress for header kind B, which is absent in some grammars.
pub open spec fn b_branch_step(c: SpecConfig, ph: Branch, byte: u8) -> Branch {
    match c.tag_b {
        Some(t) => branch_step(t, false, ph, byte),
        None => Branch::Dead,
    }
}

/// The failure state for a body that outgrew the configured bound.
pub open spec fn fail_too_large(st: SpecState) -> SpecState {
    SpecState {
        phase: SpecPhase::Failed {
            err: SpecError { kind: ErrorKind::BodyTooLarge, offset: st.total },
        },
        body: st.body,
        total: st.total + 1,
    }
}

/// The transition function of the engine: one input byte. Terminal states
/// absorb further bytes unchanged.
pub open spec fn step(c: SpecConfig, st: SpecState, byte: u8) -> SpecState {
    match st.phase {
        SpecPhase::Headers { reps, start, a, b, t } => {
            let a2 = branch_step(c.tag_a, true, a, byte);
            let b2 = b_branch_step(c, b, byte);
            let t2 = branch_step(Seq::empty(), false, t, byte);
            if a2 == Branch::Hit || b2 == Branch::Hit {
                SpecState {
                    phase: fresh_headers(c, reps + 1, st.total + 1),
                    body: st.body,
                    total: st.total + 1,
                }
            } else if t2 == Branch::Hit {
                if reps >= c.min_headers {
                    if c.has_body {
                        SpecState {
                            phase: SpecPhase::InBody { pending: false },
                            body: st.body,
                            total: st.total + 1,
                        }
                    } else {
                        SpecState {
                            phase: SpecPhase::Finished { used: st.total + 1 },
                            body: st.body,
                            total: st.total + 1,
                        }
                    }
                } else {
                    SpecState {
                        phase: SpecPhase::Failed {
                            err: SpecError { kind: ErrorKind::MissingHeader, offset: start },
                        },
                        body: st.body,
                        total: st.total + 1,
                    }
                }
            } else if a2 == Branch::Dead && b2 == Branch::Dead && t2 == Branch::Dead {
                SpecState {
                    phase: SpecPhase::Failed {
                        err: SpecError {
                            kind: ErrorKind::UnexpectedToken { found: byte },
                            offset: st.total,
                        },
                    },
                    body: st.body,
                    total: st.total + 1,
                }
            } else {
                SpecState {
                    phase: SpecPhase::Headers { reps, start, a: a2, b: b2, t: t2 },
                    body: st.body,
                    total: st.total + 1,
                }
            }
        }
        SpecPhase::InBody { pending } => {
            if pending {
                if byte == LF {
                    SpecState {
                        phase: SpecPhase::Finished { used: st.total + 1 },
                        body: st.body,
                        total: st.total + 1,
                    }
                } else if byte == CR {
                    if st.body.len() + 1 > c.max_body {
                        fail_too_large(st)
                    } else {
                        SpecState {
                            phase: SpecPhase::InBody { pending: true },
                            body: st.body.push(CR),
                            total: st.total + 1,
                        }
                    }
                } else {
                    if st.body.len() + 2 > c.max_body {
                        fail_too_large(st)
                    } else {
                        SpecState {
                            phase: SpecPhase::InBody { pending: false },
                            body: st.body.push(CR).push(byte),
                            total: st.total + 1,
                        }
                    }
                }
            } else {
                if byte == CR {
                    SpecState {
                        phase: SpecPhase::InBody { pending: true },
                        body: st.body,
                        total: st.total + 1,
                    }
                } else {
                    if st.body.len() + 1 > c.max_body {
                        fail_too_large(st)
                    } else {
                        SpecState {
                            phase: SpecPhase::InBody { pending: false },
                            body: st.body.push(byte),
                            total: st.total + 1,
                        }
                    }
                }
            }
        }
        SpecPhase::Finished { .. } => st,
        SpecPhase::Failed { .. } => st,
    }
}

/// The engine folded over a whole input, byte by byte.
pub open spec fn run(c: SpecConfig, st: SpecState, input: Seq<u8>) -> SpecState
    decreases input.len(),
{
    if input.len() == 0 {
        st
    } else {
        run(c, step(c, st, input[0]), input.drop_first())
    }
}

/// The engine still wants more bytes: it is inside the header block or the body.
pub open spec fn suspended(st: SpecState) -> bool {
    st.phase matches SpecPhase::Headers { .. } || st.phase matches SpecPhase::InBody { .. }
}

/// The internal consistency the engine maintains: the repetition count
/// stays under the bound while a header alternative is live, the terminator
/// alternative has no tag phases, the collected body respects the
/// configured maximum, and offsets are non-negative.
pub open spec fn inv(c: SpecConfig, st: SpecState) -> bool {
    &&& 0 <= st.total
    &&& 0 <= c.max_body
    &&& match st.phase {
        SpecPhase::Headers { reps, start, a, b, t } => {
            &&& 0 <= reps <= c.max_headers
            &&& ((a != Branch::Dead || b != Branch::Dead) ==> reps < c.max_headers)
            &&& 0 <= start
            &&& (t matches Branch::Cr || t matches Branch::Lf || t matches Branch::Dead)
            &&& st.body.len() == 0
        }
        SpecPhase::InBody { .. } => st.body.len() <= c.max_body,
        _ => true,
    }
}

/// A step consumes exactly one byte while suspended and nothing once
/// terminal, and it preserves the engine invariant.
pub proof fn lemma_step_basic(c: SpecConfig, st: SpecState, byte: u8)
    ensures
        suspended(st) ==> step(c, st, byte).total == st.total + 1,
        !suspended(st) ==> step(c, st, byte) == st,
        inv(c, st) ==> inv(c, step(c, st, byte)),
{
    if inv(c, st) {
        match st.phase {
            SpecPhase::Headers { reps, start, a, b, t } => {
                let a2 = branch_step(c.tag_a, true, a, byte);
                let b2 = b_branch_step(c, b, byte);
                if a2 == Branch::Hit || b2 == Branch::Hit {
                    assert(a != Branch::Dead || b != Branch::Dead);
                    assert(reps < c.max_headers);
                    assert(inv(c, step(c, st, byte)));
                } else {
                    assert(inv(c, step(c, st, byte)));
                }
            }
            SpecPhase::InBody { pending } => {
                assert(inv(c, step(c, st, byte)));
            }
            _ => {}
        }
    }
}

/// A terminal state absorbs any further input.
pub proof fn lemma_run_terminal(c: SpecConfig, st: SpecState, input: Seq<u8>)
    requires
        !suspended(st),
    ensures
        run(c, st, input) == st,
    decreases input.len(),
{
    if input.len() > 0 {
        lemma_run_terminal(c, st, input.drop_first());
    }
}

/// Folding over `s` and then one more byte equals one step after folding
/// over `s`.
pub proof fn lemma_run_snoc(c: SpecConfig, st: SpecState, s: Seq<u8>, byte: u8)
    ensures
        run(c, st, s.push(byte)) == step(c, run(c, st, s), byte),
    decreases s.len(),
{
    if s.len() == 0 {
        assert(s.push(byte)[0] == byte);
        assert(s.push(byte).drop_first() =~= Seq::<u8>::empty());
    } else {
        assert(s.push(byte)[0] == s[0]);
        assert(s.push(byte).drop_first() =~= s.drop_first().push(byte));
        lemma_run_snoc(c, step(c, st, s[0]), s.drop_first(), byte);
        assert(run(c, st, s.push(byte)) == run(c, step(c, st, s[0]), s.drop_first().push(byte)));
    }
}

/// The engine invariant survives any run, and a run consumes at most its
/// input.
pub proof fn lemma_run_inv(c: SpecConfig, st: SpecState, input: Seq<u8>)
    requires
        inv(c, st),
    ensures
        inv(c, run(c, st, input)),
        run(c, st, input).total <= st.total + input.len(),
    decreases input.len(),
{
    if input.len() > 0 {
        lemma_step_basic(c, st, input[0]);
        lemma_run_inv(c, step(c, st, input[0]), input.drop_first());
    }
}

/// Executable phase of the engine, mirroring [`SpecPhase`].
#[derive(Clone, Copy)]
pub enum Phase {
    Headers { reps: usize, start: usize, a: Branch, b: Branch, t: Branch },
    InBody { pending: bool },
    Finished { used: usize },
    Failed { err: DecodeError },
}

impl View for Phase {
    type V = SpecPhase;

    open spec fn view(&self) -> SpecPhase {
        match *self {
            Phase::Headers { reps, start, a, b, t } => SpecPhase::Headers {
                reps: reps as int,
                start: start as int,
                a,
                b,
                t,
            },
            Phase::InBody { pending } => SpecPhase::InBody { pending },
            Phase::Finished { used } => SpecPhase::Finished { used: used as int },
            Phase::Failed { err } => SpecPhase::Failed { err: err@ },
        }
    }
}

/// Executable engine state: the current phase, the body collected so far,
/// and the count of consumed stream bytes.
pub struct State {
    phase: Phase,
    body: Vec<u8>,
    total: usize,
}

impl View for State {
    type V = SpecState;

    closed spec fn view(&self) -> SpecState {
        SpecState { phase: self.phase@, body: self.body@, total: self.total as int }
    }
}

/// One byte of progress for one alternative, executably.
fn exec_branch_step(lit: &Vec<u8>, dig: bool, ph: Branch, byte: u8) -> (r: Branch)
    ensures
        r == branch_step(lit@, dig, ph, byte),
{
    match ph {
        Branch::Dead => Branch::Dead,
        Branch::Lit(i) => if i < lit.len() && byte == lit[i] {
            if i + 1 == lit.len() {
                if dig {
                    Branch::Dig0
                } else {
                    Branch::Cr
                }
            } else {
                Branch::Lit(i + 1)
            }
        } else {
            Branch::Dead
        },
        Branch::Dig0 => if 48 <= byte && byte <= 57 {
            Branch::Dig1
        } else {
            Branch::Dead
        },
        Branch::Dig1 => if 48 <= byte && byte <= 57 {
            Branch::Dig1
        } else if byte == CR {
            Branch::Lf
        } else {
            Branch::Dead
        },
        Branch::Cr => if byte == CR {
            Branch::Lf
        } else {
            Branch::Dead
        },
        Branch::Lf => if byte == LF {
            Branch::Hit
        } else {
            Branch::Dead
        },
        Branch::Hit => Branch::Dead,
    }
}

/// What a final engine state means to a single-shot caller.
pub open spec fn reflects(st: SpecState, r: Result<Option<(Vec<u8>, usize)>, DecodeError>) -> bool {
    match st.phase {
        SpecPhase::Finished { used } => r matches Ok(Some((m, n))) && m@ == st.body && n as int
            == used,
        SpecPhase::Failed { err } => r matches Err(e) && e@ == err,
        _ => r matches Ok(o) && o is None,
    }
}

/// A fresh copy of a byte vector.
fn copy_bytes(v: &Vec<u8>) -> (r: Vec<u8>)
    ensures
        r@ == v@,
{
    let mut r: Vec<u8> = Vec::new();
    let mut i: usize = 0;
    while i < v.len()
        invariant
            0 <= i <= v@.len(),
            r@ == v@.take(i as int),
        decreases v@.len() - i,
    {
        r.push(v[i]);
        assert(v@.take(i + 1 as int) =~= v@.take(i as int).push(v@[i as int]));
        i = i + 1;
    }
    assert(v@.take(v@.len() as int) =~= v@);
    r
}

/// The slot branch for header kind A at `reps` completed repetitions.
fn exec_slot_a(cfg: &Config, reps: usize) -> (r: Branch)
    ensures
        r == slot_a(cfg@, reps as int),
{
    if reps < cfg.max_headers {
        if cfg.tag_a.len() > 0 {
            Branch::Lit(0)
        } else {
            Branch::Dig0
        }
    } else {
        Branch::Dead
    }
}

/// The slot branch for header kind B at `reps` completed repetitions.
fn exec_slot_b(cfg: &Config, reps: usize) -> (r: Branch)
    ensures
        r == slot_b(cfg@, reps as int),
{
    match &cfg.tag_b {
        Some(t) => if reps < cfg.max_headers {
            if t.len() > 0 {
                Branch::Lit(0)
            } else {
                Branch::Cr
            }
        } else {
            Branch::Dead
        },
        None => Branch::Dead,
    }
}

impl State {
    /// The engine ready to decode a new frame under `cfg`.
    pub fn initial(cfg: &Config) -> (r: State)
        ensures
            r@ == init(cfg@),
            inv(cfg@, r@),
    {
        let a = exec_slot_a(cfg, 0);
        let b = exec_slot_b(cfg, 0);
        State {
            phase: Phase::Headers { reps: 0, start: 0, a, b, t: Branch::Cr },
            body: Vec::new(),
            total: 0,
        }
    }

    /// Feeds one byte to the engine.
    pub fn step_byte(&mut self, cfg: &Config, byte: u8)
        requires
            inv(cfg@, old(self)@),
            suspended(old(self)@) ==> old(self)@.total < usize::MAX,
        ensures
            final(self)@ == step(cfg@, old(self)@, byte),
            inv(cfg@, final(self)@),
    {
        proof {
            lemma_step_basic(cfg@, old(self)@, byte);
        }
        let ph = self.phase;
        match ph {
            Phase::Headers { reps, start, a, b, t } => {
                let a2 = exec_branch_step(&cfg.tag_a, true, a, byte);
                let b2 = match &cfg.tag_b {
                    Some(tb) => exec_branch_step(tb, false, b, byte),
                    None => Branch::Dead,
                };
                let t2 = match t {
                    Branch::Cr => if byte == CR {
                        Branch::Lf
                    } else {
                        Branch::Dead
                    },
                    Branch::Lf => if byte == LF {
                        Branch::Hit
                    } else {
                        Branch::Dead
                    },
                    _ => Branch::Dead,
                };
                let next_total = self.total + 1;
                if matches!(a2, Branch::Hit) || matches!(b2, Branch::Hit) {
                    let na = exec_slot_a(cfg, reps + 1);
                    let nb = exec_slot_b(cfg, reps + 1);
                    self.phase = Phase::Headers {
                        reps: reps + 1,
                        start: next_total,
                        a: na,
                        b: nb,
                        t: Branch::Cr,
                    };
                } else if matches!(t2, Branch::Hit) {
                    if reps >= cfg.min_headers {
                        if cfg.has_body {
                            self.phase = Phase::InBody { pending: false };
                        } else {
                            self.phase = Phase::Finished { used: next_total };
                        }
                    } else {
                        self.phase = Phase::Failed {
                            err: DecodeError { kind: ErrorKind::MissingHeader, offset: start },
                        };
                    }
                } else if matches!(a2, Branch::Dead) && matches!(b2, Branch::Dead) && matches!(
                    t2,
                    Branch::Dead,
                ) {
                    self.phase = Phase::Failed {
                        err: DecodeError {
                            kind: ErrorKind::UnexpectedToken { found: byte },
                            offset: self.total,
                        },
                    };
                } else {
                    self.phase = Phase::Headers { reps, start, a: a2, b: b2, t: t2 };
                }
                self.total = next_total;
            }
            Phase::InBody { pending } => {
                let next_total = self.total + 1;
                if pending {
                    if byte == LF {
                        self.phase = Phase::Finished { used: next_total };
                    } else if byte == CR {
                        if self.body.len() >= cfg.max_body {
                            self.phase = Phase::Failed {
                                err: DecodeError {
                                    kind: ErrorKind::BodyTooLarge,
                                    offset: self.total,
                                },
                            };
                        } else {
                            self.body.push(CR);
                        }
                    } else {
                        if self.body.len() >= cfg.max_body || self.body.len() + 1
                            >= cfg.max_body {
                            self.phase = Phase::Failed {
                                err: DecodeError {
                                    kind: ErrorKind::BodyTooLarge,
                                    offset: self.total,
                                },
                            };
                        } else {
                            self.body.push(CR);
                            self.body.push(byte);
                            self.phase = Phase::InBody { pending: false };
                        }
                    }
                } else {
                    if byte == CR {
                        self.phase = Phase::InBody { pending: true };
                    } else {
                        if self.body.len() >= cfg.max_body {
                            self.phase = Phase::Failed {
                                err: DecodeError {
                                    kind: ErrorKind::BodyTooLarge,
                                    offset: self.total,
                                },
                            };
                        } else {
                            self.body.push(byte);
                        }
                    }
                }
                self.total = next_total;
            }
            Phase::Finished { .. } => {}
            Phase::Failed { .. } => {}
        }
    }

    /// Feeds a whole slice of bytes to the engine, in order.
    pub fn feed(&mut self, cfg: &Config, bytes: &[u8])
        requires
            inv(cfg@, old(self)@),
            old(self)@.total + bytes@.len() <= usize::MAX,
        ensures
            final(self)@ == run(cfg@, old(self)@, bytes@),
            inv(cfg@, final(self)@),
    {
        let ghost orig: SpecState = self@;
        let n = bytes.len();
        let mut i: usize = 0;
        while i < n
            invariant
                0 <= i <= n,
                n == bytes@.len(),
                self@ == run(cfg@, orig, bytes@.take(i as int)),
                inv(cfg@, self@),
                self@.total <= orig.total + i,
                orig.total + bytes@.len() <= usize::MAX,
            decreases n - i,
        {
            proof {
                lemma_run_snoc(cfg@, orig, bytes@.take(i as int), bytes@[i as int]);
                assert(bytes@.take(i + 1 as int) =~= bytes@.take(i as int).push(
                    bytes@[i as int],
                ));
                lemma_step_basic(cfg@, self@, bytes@[i as int]);
            }
            self.step_byte(cfg, bytes[i]);
            i = i + 1;
        }
        proof {
            assert(bytes@.take(n as int) =~= bytes@);
        }
    }

    /// Reports the engine's outcome so far: a decoded frame with its
    /// consumed length, a terminal error, or a request for more bytes.
    pub fn poll(&self) -> (r: Result<Option<(Vec<u8>, usize)>, DecodeError>)
        ensures
            reflects(self@, r),
    {
        match &self.phase {
            Phase::Finished { used } => Ok(Some((copy_bytes(&self.body), *used))),
            Phase::Failed { err } => Err(*err),
            _ => Ok(None),
        }
    }
}

} // verus!
