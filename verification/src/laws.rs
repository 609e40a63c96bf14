//! The decoding laws: properties of the engine proved once and for all.
//!
//! The statements range over the ghost model of the engine —
//! [`run`](crate::machine::run) folding [`step`](crate::machine::step) over
//! input bytes — which the executable entry points are proved to implement
//! exactly. Chief among them: the outcome of a decode depends only on the
//! concatenation of the chunks fed, never on where the stream was split.

use vstd::prelude::*;

use crate::config::{SpecConfig, CR, LF};
use crate::machine::{
    b_branch_step, branch_start, branch_step, fresh_headers, init, is_digit, run, step, suspended,
    Branch, SpecPhase, SpecState,
};
use crate::report::{ErrorKind, SpecError};

verus! {

/// Feeding an input in two pieces reaches the same state as feeding it
/// whole: the heart of chunk-invariance.
pub proof fn lemma_run_concat(c: SpecConfig, st: SpecState, first: Seq<u8>, second: Seq<u8>)
    ensures
        run(c, st, first + second) == run(c, run(c, st, first), second),
    decreases first.len(),
{
    if first.len() == 0 {
        assert(first + second =~= second);
    } else {
        assert((first + second).drop_first() =~= first.drop_first() + second);
        lemma_run_concat(c, step(c, st, first[0]), first.drop_first(), second);
    }
}

/// The engine fed one chunk after another, as an incremental decode does.
pub open spec fn run_chunks(c: SpecConfig, st: SpecState, chunks: Seq<Seq<u8>>) -> SpecState
    decreases chunks.len(),
{
    if chunks.len() == 0 {
        st
    } else {
        run_chunks(c, run(c, st, chunks.first()), chunks.drop_first())
    }
}

/// Chunk-invariance: however an input is split into chunks, feeding them
/// one at a time ends in exactly the state that feeding the whole input at
/// once does — the same message, the same error, the same suspension.
pub proof fn lemma_chunk_invariance(c: SpecConfig, st: SpecState, chunks: Seq<Seq<u8>>)
    ensures
        run_chunks(c, st, chunks) == run(c, st, chunks.flatten()),
    decreases chunks.len(),
{
    if chunks.len() == 0 {
        assert(chunks.flatten() =~= Seq::<u8>::empty());
    } else {
        lemma_run_concat(c, st, chunks.first(), chunks.drop_first().flatten());
        lemma_chunk_invariance(c, run(c, st, chunks.first()), chunks.drop_first());
    }
}

/// Non-progress suspension: feeding zero new bytes to a suspended engine
/// leaves it suspended in the same state, with all prior progress intact.
pub proof fn lemma_zero_bytes_no_progress(c: SpecConfig, st: SpecState)
    requires
        suspended(st),
    ensures
        run(c, st, Seq::<u8>::empty()) == st,
        suspended(run(c, st, Seq::<u8>::empty())),
{
}

/// The line terminator as a byte sequence.
pub open spec fn crlf() -> Seq<u8> {
    seq![CR, LF]
}

/// `s` is one complete header of kind A: the tag, at least one decimal
/// digit, and the line terminator.
pub open spec fn is_header_a(c: SpecConfig, s: Seq<u8>) -> bool {
    let la = c.tag_a.len() as int;
    &&& s.len() >= la + 3
    &&& (forall|i: int| 0 <= i < la ==> s[i] == c.tag_a[i])
    &&& (forall|i: int| la <= i < s.len() - 2 ==> is_digit(s[i]))
    &&& s[s.len() - 2] == CR
    &&& s[s.len() - 1] == LF
}

/// `s` is one complete header of kind B: the tag and the line terminator.
pub open spec fn is_header_b(c: SpecConfig, s: Seq<u8>) -> bool {
    match c.tag_b {
        Some(tb) => {
            let lb = tb.len() as int;
            &&& s.len() == lb + 2
            &&& (forall|i: int| 0 <= i < lb ==> s[i] == tb[i])
            &&& s[lb] == CR
            &&& s[lb + 1] == LF
        }
        None => false,
    }
}

/// `s` is one complete header of either kind.
pub open spec fn is_header(c: SpecConfig, s: Seq<u8>) -> bool {
    is_header_a(c, s) || is_header_b(c, s)
}

/// The engine at the start of a repetition slot, `reps` headers done.
pub open spec fn fresh_state(c: SpecConfig, reps: int, body: Seq<u8>, total: int) -> SpecState {
    SpecState { phase: fresh_headers(c, reps, total), body, total }
}

/// The header-kind-A alternative after the first `k` bytes of a slot fed
/// with `h`.
pub open spec fn a_track(c: SpecConfig, h: Seq<u8>, k: int) -> Branch
    decreases k,
{
    if k <= 0 {
        branch_start(c.tag_a, true)
    } else {
        branch_step(c.tag_a, true, a_track(c, h, k - 1), h[k - 1])
    }
}

/// The header-kind-B alternative after the first `k` bytes of a slot fed
/// with `h`.
pub open spec fn b_track(c: SpecConfig, h: Seq<u8>, k: int) -> Branch
    decreases k,
{
    if k <= 0 {
        match c.tag_b {
            Some(tb) => branch_start(tb, false),
            None => Branch::Dead,
        }
    } else {
        b_branch_step(c, b_track(c, h, k - 1), h[k - 1])
    }
}

/// The block-terminator alternative after the first `k` bytes of a slot
/// fed with `h`.
pub open spec fn t_track(h: Seq<u8>, k: int) -> Branch
    decreases k,
{
    if k <= 0 {
        Branch::Cr
    } else {
        branch_step(Seq::<u8>::empty(), false, t_track(h, k - 1), h[k - 1])
    }
}

/// An alternative completes only on a line feed.
proof fn lemma_hit_needs_lf(lit: Seq<u8>, dig: bool, ph: Branch, byte: u8)
    ensures
        branch_step(lit, dig, ph, byte) == Branch::Hit ==> byte == LF,
{
}

/// Once a slot's first byte is not a carriage return, the terminator
/// alternative is dead for the rest of the slot.
proof fn lemma_t_track_dead(h: Seq<u8>, k: int)
    requires
        h.len() >= 1,
        h[0] != CR,
        1 <= k,
    ensures
        t_track(h, k) == Branch::Dead,
    decreases k,
{
    if k == 1 {
        assert(t_track(h, 0) == Branch::Cr);
        assert(t_track(h, 1) == branch_step(Seq::<u8>::empty(), false, Branch::Cr, h[0]));
    } else {
        lemma_t_track_dead(h, k - 1);
        assert(t_track(h, k) == branch_step(Seq::<u8>::empty(), false, Branch::Dead, h[k - 1]));
    }
}

/// No byte of a header is a line feed except its last.
proof fn lemma_header_no_lf(c: SpecConfig, h: Seq<u8>)
    requires
        c.wf(),
        is_header(c, h),
    ensures
        forall|i: int| 0 <= i < h.len() - 1 ==> h[i] != LF,
        h.len() >= 3,
        h[0] != CR,
        h[h.len() - 1] == LF,
{
    if is_header_a(c, h) {
        let la = c.tag_a.len() as int;
        assert forall|i: int| 0 <= i < h.len() - 1 implies h[i] != LF by {
            if i < la {
                assert(h[i] == c.tag_a[i]);
            } else if i < h.len() - 2 {
                assert(is_digit(h[i]));
            }
        }
        assert(h[0] == c.tag_a[0]);
    } else {
        let tb = c.tag_b.unwrap();
        let lb = tb.len() as int;
        assert forall|i: int| 0 <= i < h.len() - 1 implies h[i] != LF by {
            if i < lb {
                assert(h[i] == tb[i]);
            }
        }
        assert(h[0] == tb[0]);
    }
}

/// Where the A alternative stands after `k` bytes of a complete kind-A
/// header: inside the tag, the digits, or the terminator, in lockstep.
pub open spec fn a_header_phase(c: SpecConfig, h: Seq<u8>, k: int) -> Branch {
    let la = c.tag_a.len() as int;
    if k < la {
        Branch::Lit(k as usize)
    } else if k == la {
        Branch::Dig0
    } else if k <= h.len() - 2 {
        Branch::Dig1
    } else if k == h.len() - 1 {
        Branch::Lf
    } else {
        Branch::Hit
    }
}

/// The A alternative tracks a complete kind-A header byte for byte and
/// completes exactly on its final line feed.
proof fn lemma_a_header_track(c: SpecConfig, h: Seq<u8>, k: int)
    requires
        c.wf(),
        is_header_a(c, h),
        0 <= k <= h.len(),
    ensures
        a_track(c, h, k) == a_header_phase(c, h, k),
    decreases k,
{
    let la = c.tag_a.len() as int;
    if k > 0 {
        lemma_a_header_track(c, h, k - 1);
        if k - 1 < la {
            assert(h[k - 1] == c.tag_a[k - 1]);
        } else if k - 1 == la || k - 1 < h.len() - 2 {
            assert(is_digit(h[k - 1]));
        }
    }
}

/// Where the B alternative stands after `k` bytes of a complete kind-B
/// header.
pub open spec fn b_header_phase(c: SpecConfig, h: Seq<u8>, k: int) -> Branch {
    let lb = c.tag_b.unwrap().len() as int;
    if k < lb {
        Branch::Lit(k as usize)
    } else if k == lb {
        Branch::Cr
    } else if k == lb + 1 {
        Branch::Lf
    } else {
        Branch::Hit
    }
}

/// The B alternative tracks a complete kind-B header byte for byte and
/// completes exactly on its final line feed.
proof fn lemma_b_header_track(c: SpecConfig, h: Seq<u8>, k: int)
    requires
        c.wf(),
        is_header_b(c, h),
        0 <= k <= h.len(),
    ensures
        b_track(c, h, k) == b_header_phase(c, h, k),
    decreases k,
{
    let tb = c.tag_b.unwrap();
    let lb = tb.len() as int;
    if k > 0 {
        lemma_b_header_track(c, h, k - 1);
        if k - 1 < lb {
            assert(h[k - 1] == tb[k - 1]);
        }
    }
}

/// While no alternative has completed or failed the slot, the engine walks
/// the slot byte for byte alongside the three tracked alternatives.
proof fn lemma_slot_unroll(
    c: SpecConfig,
    reps: int,
    body0: Seq<u8>,
    t0: int,
    h: Seq<u8>,
    k: int,
)
    requires
        0 <= reps < c.max_headers,
        0 <= k <= h.len(),
        forall|j: int| 0 < j <= k ==> #[trigger] a_track(c, h, j) != Branch::Hit && b_track(
            c,
            h,
            j,
        ) != Branch::Hit && t_track(h, j) != Branch::Hit,
        forall|j: int| 0 < j <= k ==> !(#[trigger] a_track(c, h, j) == Branch::Dead && b_track(
            c,
            h,
            j,
        ) == Branch::Dead && t_track(h, j) == Branch::Dead),
    ensures
        run(c, fresh_state(c, reps, body0, t0), h.take(k)) == (SpecState {
            phase: SpecPhase::Headers {
                reps,
                start: t0,
                a: a_track(c, h, k),
                b: b_track(c, h, k),
                t: t_track(h, k),
            },
            body: body0,
            total: t0 + k,
        }),
    decreases k,
{
    if k == 0 {
        assert(h.take(0) =~= Seq::<u8>::empty());
    } else {
        lemma_slot_unroll(c, reps, body0, t0, h, k - 1);
        crate::machine::lemma_run_snoc(c, fresh_state(c, reps, body0, t0), h.take(k - 1), h[k - 1]);
        assert(h.take(k) =~= h.take(k - 1).push(h[k - 1]));
        assert(a_track(c, h, k) == branch_step(c.tag_a, true, a_track(c, h, k - 1), h[k - 1]));
    }
}

/// Feeding one complete header to a fresh slot under the repetition bound
/// completes that header: the engine moves to the next fresh slot with one
/// more repetition done and every byte consumed.
pub proof fn lemma_header_slot(c: SpecConfig, reps: int, body0: Seq<u8>, t0: int, h: Seq<u8>)
    requires
        c.wf(),
        0 <= reps < c.max_headers,
        is_header(c, h),
    ensures
        run(c, fresh_state(c, reps, body0, t0), h) == fresh_state(
            c,
            reps + 1,
            body0,
            t0 + h.len(),
        ),
{
    let n = h.len() as int;
    lemma_header_no_lf(c, h);
    lemma_t_track_dead(h, n - 1);
    if is_header_a(c, h) {
        assert forall|j: int| 0 < j <= n - 1 implies #[trigger] a_track(c, h, j) != Branch::Hit
            && b_track(c, h, j) != Branch::Hit && t_track(h, j) != Branch::Hit by {
            lemma_a_header_track(c, h, j);
            lemma_hit_needs_lf(c.tag_a, true, a_track(c, h, j - 1), h[j - 1]);
            if c.tag_b is Some {
                lemma_hit_needs_lf(c.tag_b.unwrap(), false, b_track(c, h, j - 1), h[j - 1]);
            }
            lemma_hit_needs_lf(Seq::<u8>::empty(), false, t_track(h, j - 1), h[j - 1]);
        }
        assert forall|j: int| 0 < j <= n - 1 implies !(#[trigger] a_track(c, h, j) == Branch::Dead
            && b_track(c, h, j) == Branch::Dead && t_track(h, j) == Branch::Dead) by {
            lemma_a_header_track(c, h, j);
        }
        lemma_slot_unroll(c, reps, body0, t0, h, n - 1);
        crate::machine::lemma_run_snoc(c, fresh_state(c, reps, body0, t0), h.take(n - 1), h[n - 1]);
        assert(h.take(n - 1).push(h[n - 1]) =~= h);
        assert(h.take(n) =~= h);
        lemma_a_header_track(c, h, n - 1);
        lemma_a_header_track(c, h, n);
        assert(a_track(c, h, n) == Branch::Hit);
    } else {
        assert forall|j: int| 0 < j <= n - 1 implies #[trigger] a_track(c, h, j) != Branch::Hit
            && b_track(c, h, j) != Branch::Hit && t_track(h, j) != Branch::Hit by {
            lemma_b_header_track(c, h, j);
            lemma_hit_needs_lf(c.tag_a, true, a_track(c, h, j - 1), h[j - 1]);
            lemma_hit_needs_lf(c.tag_b.unwrap(), false, b_track(c, h, j - 1), h[j - 1]);
            lemma_hit_needs_lf(Seq::<u8>::empty(), false, t_track(h, j - 1), h[j - 1]);
        }
        assert forall|j: int| 0 < j <= n - 1 implies !(#[trigger] a_track(c, h, j) == Branch::Dead
            && b_track(c, h, j) == Branch::Dead && t_track(h, j) == Branch::Dead) by {
            lemma_b_header_track(c, h, j);
        }
        lemma_slot_unroll(c, reps, body0, t0, h, n - 1);
        crate::machine::lemma_run_snoc(c, fresh_state(c, reps, body0, t0), h.take(n - 1), h[n - 1]);
        assert(h.take(n - 1).push(h[n - 1]) =~= h);
        assert(h.take(n) =~= h);
        lemma_b_header_track(c, h, n - 1);
        lemma_b_header_track(c, h, n);
        assert(b_track(c, h, n) == Branch::Hit);
    }
}

/// Feeding the bare line terminator to a fresh slot ends the header block:
/// into the body (or a finished frame) when the minimum repetition count is
/// met, and into `MissingHeader` when it is not.
pub proof fn lemma_block_end(c: SpecConfig, reps: int, body0: Seq<u8>, t0: int)
    requires
        c.wf(),
        0 <= reps <= c.max_headers,
    ensures
        reps >= c.min_headers && c.has_body ==> run(c, fresh_state(c, reps, body0, t0), crlf())
            == (SpecState {
            phase: SpecPhase::InBody { pending: false },
            body: body0,
            total: t0 + 2,
        }),
        reps >= c.min_headers && !c.has_body ==> run(c, fresh_state(c, reps, body0, t0), crlf())
            == (SpecState {
            phase: SpecPhase::Finished { used: t0 + 2 },
            body: body0,
            total: t0 + 2,
        }),
        reps < c.min_headers ==> run(c, fresh_state(c, reps, body0, t0), crlf()) == (SpecState {
            phase: SpecPhase::Failed {
                err: SpecError { kind: ErrorKind::MissingHeader, offset: t0 },
            },
            body: body0,
            total: t0 + 2,
        }),
{
    let s0 = fresh_state(c, reps, body0, t0);
    assert(c.tag_a[0] != CR);
    if c.tag_b is Some {
        assert(c.tag_b.unwrap()[0] != CR);
    }
    let s1 = step(c, s0, CR);
    assert(crlf()[0] == CR);
    assert(crlf().drop_first() =~= seq![LF]);
    assert(seq![LF][0] == LF);
    assert(seq![LF].drop_first() =~= Seq::<u8>::empty());
    assert(run(c, s0, crlf()) == run(c, s1, seq![LF]));
    assert(run(c, s1, seq![LF]) == run(c, step(c, s1, LF), Seq::<u8>::empty()));
    assert(run(c, s0, crlf()) == step(c, s1, LF));
}

/// `s` contains no line terminator pair, so it can stand whole as a body.
pub open spec fn body_clean(s: Seq<u8>) -> bool {
    forall|i: int| 0 <= i < s.len() - 1 ==> !(#[trigger] s[i] == CR && s[i + 1] == LF)
}

/// The body scanner holds back a trailing carriage return, since it may
/// begin the terminator.
pub open spec fn body_pend(s: Seq<u8>, k: int) -> bool {
    k > 0 && s[k - 1] == CR
}

/// The body bytes committed after the first `k` bytes of `s`.
pub open spec fn body_taken(s: Seq<u8>, k: int) -> Seq<u8> {
    if body_pend(s, k) {
        s.take(k - 1)
    } else {
        s.take(k)
    }
}

/// The body scanner walks a clean byte run in lockstep, committing every
/// byte except a possible trailing carriage return.
proof fn lemma_body_unroll(c: SpecConfig, body0: Seq<u8>, t0: int, s: Seq<u8>, k: int)
    requires
        body_clean(s),
        0 <= k <= s.len(),
        body0.len() + s.len() <= c.max_body,
    ensures
        run(
            c,
            SpecState { phase: SpecPhase::InBody { pending: false }, body: body0, total: t0 },
            s.take(k),
        ) == (SpecState {
            phase: SpecPhase::InBody { pending: body_pend(s, k) },
            body: body0 + body_taken(s, k),
            total: t0 + k,
        }),
    decreases k,
{
    let st0 = SpecState { phase: SpecPhase::InBody { pending: false }, body: body0, total: t0 };
    if k == 0 {
        assert(s.take(0) =~= Seq::<u8>::empty());
        assert(body0 + body_taken(s, 0) =~= body0);
    } else {
        lemma_body_unroll(c, body0, t0, s, k - 1);
        crate::machine::lemma_run_snoc(c, st0, s.take(k - 1), s[k - 1]);
        assert(s.take(k) =~= s.take(k - 1).push(s[k - 1]));
        if body_pend(s, k - 1) {
            assert(!(s[k - 2] == CR && s[k - 1] == LF));
            assert(s[k - 1] != LF);
            if s[k - 1] == CR {
                assert(body0 + body_taken(s, k) =~= (body0 + s.take(k - 2)).push(CR));
            } else {
                assert(body0 + body_taken(s, k) =~= (body0 + s.take(k - 2)).push(CR).push(
                    s[k - 1],
                ));
            }
        } else {
            if s[k - 1] == CR {
                assert(body0 + body_taken(s, k) =~= body0 + s.take(k - 1));
            } else {
                assert(body0 + body_taken(s, k) =~= (body0 + s.take(k - 1)).push(s[k - 1]));
            }
        }
    }
}

/// A clean byte run followed by the line terminator completes the body:
/// the frame finishes with exactly that run appended to the body, and the
/// consumed length lands one byte past the terminator.
pub proof fn lemma_body_complete(c: SpecConfig, body0: Seq<u8>, t0: int, s: Seq<u8>)
    requires
        body_clean(s),
        body0.len() + s.len() <= c.max_body,
    ensures
        run(
            c,
            SpecState { phase: SpecPhase::InBody { pending: false }, body: body0, total: t0 },
            s + crlf(),
        ) == (SpecState {
            phase: SpecPhase::Finished { used: t0 + s.len() + 2 },
            body: body0 + s,
            total: t0 + s.len() + 2,
        }),
{
    let st0 = SpecState { phase: SpecPhase::InBody { pending: false }, body: body0, total: t0 };
    let n = s.len() as int;
    lemma_run_concat(c, st0, s, crlf());
    lemma_body_unroll(c, body0, t0, s, n);
    assert(s.take(n) =~= s);
    let sn = SpecState {
        phase: SpecPhase::InBody { pending: body_pend(s, n) },
        body: body0 + body_taken(s, n),
        total: t0 + n,
    };
    let s1 = step(c, sn, CR);
    assert(crlf()[0] == CR);
    assert(crlf().drop_first() =~= seq![LF]);
    assert(seq![LF][0] == LF);
    assert(seq![LF].drop_first() =~= Seq::<u8>::empty());
    if body_pend(s, n) {
        assert(s[n - 1] == CR);
        assert((body0 + s.take(n - 1)).push(CR) =~= body0 + s);
    } else {
        assert(body0 + body_taken(s, n) =~= body0 + s);
    }
    assert(run(c, sn, crlf()) == run(c, s1, seq![LF]));
    assert(run(c, s1, seq![LF]) == run(c, step(c, s1, LF), Seq::<u8>::empty()));
    assert(run(c, st0, s + crlf()) == step(c, s1, LF));
}

/// Every element is one complete header.
pub open spec fn all_headers(c: SpecConfig, hs: Seq<Seq<u8>>) -> bool {
    forall|i: int| 0 <= i < hs.len() ==> is_header(c, #[trigger] hs[i])
}

/// Feeding a run of complete headers, within the repetition bound,
/// completes them all in order.
pub proof fn lemma_headers_run(c: SpecConfig, reps0: int, body0: Seq<u8>, t0: int, hs: Seq<Seq<u8>>)
    requires
        c.wf(),
        0 <= reps0,
        reps0 + hs.len() <= c.max_headers,
        all_headers(c, hs),
    ensures
        run(c, fresh_state(c, reps0, body0, t0), hs.flatten()) == fresh_state(
            c,
            reps0 + hs.len(),
            body0,
            t0 + hs.flatten().len(),
        ),
    decreases hs.len(),
{
    if hs.len() == 0 {
        assert(hs.flatten() =~= Seq::<u8>::empty());
    } else {
        let h = hs.first();
        let rest = hs.drop_first();
        assert(hs.flatten() == h + rest.flatten());
        lemma_run_concat(c, fresh_state(c, reps0, body0, t0), h, rest.flatten());
        assert(is_header(c, hs[0]));
        lemma_header_slot(c, reps0, body0, t0, h);
        assert(all_headers(c, rest)) by {
            assert forall|i: int| 0 <= i < rest.len() implies is_header(c, #[trigger] rest[i]) by {
                assert(rest[i] == hs[i + 1]);
            }
        }
        lemma_headers_run(c, reps0 + 1, body0, t0 + h.len(), rest);
    }
}

/// A complete frame with a body decodes to exactly that body, consuming
/// the whole frame: any number of headers from the minimum to the maximum,
/// the separator, the body, the terminator.
pub proof fn theorem_frame_with_body(c: SpecConfig, hs: Seq<Seq<u8>>, body: Seq<u8>)
    requires
        c.wf(),
        c.has_body,
        all_headers(c, hs),
        c.min_headers <= hs.len() <= c.max_headers,
        body_clean(body),
        body.len() <= c.max_body,
    ensures
        ({
            let input = hs.flatten() + crlf() + body + crlf();
            run(c, init(c), input) == (SpecState {
                phase: SpecPhase::Finished { used: input.len() as int },
                body: body,
                total: input.len() as int,
            })
        }),
{
    let f = hs.flatten();
    let input = f + crlf() + body + crlf();
    let tail = body + crlf();
    assert(init(c) == fresh_state(c, 0, Seq::<u8>::empty(), 0));
    assert(input =~= f + (crlf() + tail));
    lemma_run_concat(c, init(c), f, crlf() + tail);
    lemma_headers_run(c, 0, Seq::<u8>::empty(), 0, hs);
    let after_headers = fresh_state(c, hs.len() as int, Seq::<u8>::empty(), f.len() as int);
    lemma_run_concat(c, after_headers, crlf(), tail);
    lemma_block_end(c, hs.len() as int, Seq::<u8>::empty(), f.len() as int);
    lemma_body_complete(c, Seq::<u8>::empty(), f.len() as int + 2, body);
    assert(Seq::<u8>::empty() + body =~= body);
    assert(input.len() == f.len() + 2 + body.len() + 2);
}

/// A complete frame of a body-less grammar decodes to the empty message,
/// consuming through the separator line.
pub proof fn theorem_frame_headers_only(c: SpecConfig, hs: Seq<Seq<u8>>)
    requires
        c.wf(),
        !c.has_body,
        all_headers(c, hs),
        c.min_headers <= hs.len() <= c.max_headers,
    ensures
        ({
            let input = hs.flatten() + crlf();
            run(c, init(c), input) == (SpecState {
                phase: SpecPhase::Finished { used: input.len() as int },
                body: Seq::<u8>::empty(),
                total: input.len() as int,
            })
        }),
{
    let f = hs.flatten();
    let input = f + crlf();
    assert(init(c) == fresh_state(c, 0, Seq::<u8>::empty(), 0));
    lemma_run_concat(c, init(c), f, crlf());
    lemma_headers_run(c, 0, Seq::<u8>::empty(), 0, hs);
    lemma_block_end(c, hs.len() as int, Seq::<u8>::empty(), f.len() as int);
    assert(input.len() == f.len() + 2);
}

/// Order independence: a kind-A header and a kind-B header may stand in
/// either order; given otherwise identical bytes the engine reaches the
/// same state, so the decoded message and the consumed length are the same.
pub proof fn theorem_order_independence(
    c: SpecConfig,
    ha: Seq<u8>,
    hb: Seq<u8>,
    rest: Seq<u8>,
)
    requires
        c.wf(),
        2 <= c.max_headers,
        is_header_a(c, ha),
        is_header_b(c, hb),
    ensures
        run(c, init(c), ha + hb + rest) == run(c, init(c), hb + ha + rest),
{
    assert(init(c) == fresh_state(c, 0, Seq::<u8>::empty(), 0));
    assert(ha + hb + rest =~= ha + (hb + rest));
    assert(hb + ha + rest =~= hb + (ha + rest));
    lemma_run_concat(c, init(c), ha, hb + rest);
    lemma_run_concat(c, init(c), hb, ha + rest);
    lemma_header_slot(c, 0, Seq::<u8>::empty(), 0, ha);
    lemma_header_slot(c, 0, Seq::<u8>::empty(), 0, hb);
    let mid_a = fresh_state(c, 1, Seq::<u8>::empty(), ha.len() as int);
    let mid_b = fresh_state(c, 1, Seq::<u8>::empty(), hb.len() as int);
    lemma_run_concat(c, mid_a, hb, rest);
    lemma_run_concat(c, mid_b, ha, rest);
    lemma_header_slot(c, 1, Seq::<u8>::empty(), ha.len() as int, hb);
    lemma_header_slot(c, 1, Seq::<u8>::empty(), hb.len() as int, ha);
}

/// Bound enforcement, lower half: fewer complete headers than the minimum,
/// then the separator, is a `MissingHeader` failure at the offset where
/// another header was expected — whatever bytes follow.
pub proof fn theorem_missing_header(c: SpecConfig, hs: Seq<Seq<u8>>, rest: Seq<u8>)
    requires
        c.wf(),
        all_headers(c, hs),
        hs.len() < c.min_headers,
    ensures
        ({
            let f = hs.flatten();
            run(c, init(c), f + crlf() + rest) == (SpecState {
                phase: SpecPhase::Failed {
                    err: SpecError { kind: ErrorKind::MissingHeader, offset: f.len() as int },
                },
                body: Seq::<u8>::empty(),
                total: f.len() as int + 2,
            })
        }),
{
    let f = hs.flatten();
    assert(init(c) == fresh_state(c, 0, Seq::<u8>::empty(), 0));
    assert(f + crlf() + rest =~= f + (crlf() + rest));
    lemma_run_concat(c, init(c), f, crlf() + rest);
    lemma_headers_run(c, 0, Seq::<u8>::empty(), 0, hs);
    let after_headers = fresh_state(c, hs.len() as int, Seq::<u8>::empty(), f.len() as int);
    lemma_run_concat(c, after_headers, crlf(), rest);
    lemma_block_end(c, hs.len() as int, Seq::<u8>::empty(), f.len() as int);
    crate::machine::lemma_run_terminal(c, run(c, after_headers, crlf()), rest);
}

/// Bound enforcement, upper half: once the maximum number of headers is
/// consumed, the engine never attempts another repetition — a further
/// header is rejected at its very first byte.
pub proof fn theorem_max_enforced(c: SpecConfig, hs: Seq<Seq<u8>>, h: Seq<u8>, rest: Seq<u8>)
    requires
        c.wf(),
        all_headers(c, hs),
        hs.len() == c.max_headers,
        is_header(c, h),
    ensures
        ({
            let f = hs.flatten();
            run(c, init(c), f + h + rest) == (SpecState {
                phase: SpecPhase::Failed {
                    err: SpecError {
                        kind: ErrorKind::UnexpectedToken { found: h[0] },
                        offset: f.len() as int,
                    },
                },
                body: Seq::<u8>::empty(),
                total: f.len() as int + 1,
            })
        }),
{
    let f = hs.flatten();
    lemma_header_no_lf(c, h);
    assert(init(c) == fresh_state(c, 0, Seq::<u8>::empty(), 0));
    assert(f + h + rest =~= f + (h + rest));
    lemma_run_concat(c, init(c), f, h + rest);
    lemma_headers_run(c, 0, Seq::<u8>::empty(), 0, hs);
    let after_headers = fresh_state(c, hs.len() as int, Seq::<u8>::empty(), f.len() as int);
    assert((h + rest)[0] == h[0]);
    let failed = step(c, after_headers, h[0]);
    assert((h + rest).len() > 0);
    assert(run(c, after_headers, h + rest) == run(c, failed, (h + rest).drop_first()));
    crate::machine::lemma_run_terminal(c, failed, (h + rest).drop_first());
}

/// The consumed count recorded in a finished frame.
pub open spec fn used_of(st: SpecState) -> int {
    match st.phase {
        SpecPhase::Finished { used } => used,
        _ => 0,
    }
}

/// The engine is one line-feed byte away from finishing a frame.
pub open spec fn awaiting_final_lf(c: SpecConfig, st: SpecState) -> bool {
    match st.phase {
        SpecPhase::Headers { reps, t, .. } => t == Branch::Lf && reps >= c.min_headers
            && !c.has_body,
        SpecPhase::InBody { pending } => pending,
        _ => false,
    }
}

/// Wherever a run from a suspended state finishes a frame, the consumed
/// count points just past a line feed reached from a carriage return, and
/// only the consumed prefix of the input mattered.
proof fn lemma_finish_shape(c: SpecConfig, st: SpecState, input: Seq<u8>)
    requires
        suspended(st),
        run(c, st, input).phase matches SpecPhase::Finished { .. },
    ensures
        ({
            let m = used_of(run(c, st, input)) - st.total;
            &&& 1 <= m <= input.len()
            &&& input[m - 1] == LF
            &&& (m >= 2 ==> input[m - 2] == CR)
            &&& (m == 1 ==> awaiting_final_lf(c, st))
            &&& run(c, st, input.take(m)) == run(c, st, input)
        }),
    decreases input.len(),
{
    let r = run(c, st, input);
    let m = used_of(r) - st.total;
    let s1 = step(c, st, input[0]);
    if s1.phase matches SpecPhase::Finished { .. } {
        crate::machine::lemma_run_terminal(c, s1, input.drop_first());
        assert(used_of(s1) == st.total + 1);
        assert(input[0] == LF);
        assert(awaiting_final_lf(c, st));
        assert(input.take(1) =~= Seq::<u8>::empty().push(input[0]));
        crate::machine::lemma_run_snoc(c, st, Seq::<u8>::empty(), input[0]);
    } else if !suspended(s1) {
        crate::machine::lemma_run_terminal(c, s1, input.drop_first());
        assert(false);
    } else {
        lemma_finish_shape(c, s1, input.drop_first());
        let m1 = used_of(run(c, s1, input.drop_first())) - s1.total;
        assert(m == m1 + 1);
        assert(input.drop_first()[m1 - 1] == input[m - 1]);
        if m1 >= 2 {
            assert(input.drop_first()[m1 - 2] == input[m - 2]);
        } else {
            assert(awaiting_final_lf(c, s1));
            assert(input[0] == CR);
        }
        assert(input.take(m)[0] == input[0]);
        assert(input.take(m).drop_first() =~= input.drop_first().take(m1));
        assert(run(c, st, input.take(m)) == run(c, s1, input.drop_first().take(m1)));
    }
}

/// Consumed-length exactness: when a whole-buffer decode finishes a frame,
/// the consumed length points exactly one byte past the frame's final line
/// terminator, only those bytes determined the outcome, and re-feeding any
/// bytes beyond the consumed prefix can never alter the finished frame.
pub proof fn theorem_consumed_exact(c: SpecConfig, input: Seq<u8>)
    requires
        run(c, init(c), input).phase matches SpecPhase::Finished { .. },
    ensures
        2 <= used_of(run(c, init(c), input)) <= input.len(),
        input[used_of(run(c, init(c), input)) - 1] == LF,
        input[used_of(run(c, init(c), input)) - 2] == CR,
        run(c, init(c), input.take(used_of(run(c, init(c), input)))) == run(c, init(c), input),
        forall|ext: Seq<u8>|
            #[trigger] run(c, init(c), input.take(used_of(run(c, init(c), input))) + ext) == run(
                c,
                init(c),
                input,
            ),
{
    lemma_finish_shape(c, init(c), input);
    let used = used_of(run(c, init(c), input));
    assert forall|ext: Seq<u8>|
        #[trigger] run(c, init(c), input.take(used) + ext) == run(c, init(c), input) by {
        lemma_run_concat(c, init(c), input.take(used), ext);
        crate::machine::lemma_run_terminal(c, run(c, init(c), input.take(used)), ext);
    }
}

} // verus!
