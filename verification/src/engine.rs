//! The caller-facing decode entry points: single-shot and incremental.

use vstd::prelude::*;
use vstd::seq_lib::lemma_flatten_concat;

use crate::config::{Config, SpecConfig};
use crate::machine::{init, inv, reflects, run, State, SpecPhase, SpecState};
use crate::report::DecodeError;

verus! {

/// What a final engine state means to an incremental caller, which learns
/// the consumed length from its own accounting rather than the result.
pub open spec fn reflects_step(st: SpecState, r: Result<Option<Vec<u8>>, DecodeError>) -> bool {
    match st.phase {
        SpecPhase::Finished { .. } => r matches Ok(Some(m)) && m@ == st.body,
        SpecPhase::Failed { err } => r matches Err(e) && e@ == err,
        _ => r matches Ok(o) && o is None,
    }
}

/// Decodes a single buffer in one call.
///
/// `Ok(None)` means the buffer is a viable prefix of a frame and more bytes
/// are needed; `Ok(Some((body, n)))` means a full frame was recognized in
/// the first `n` bytes; `Err(e)` means no extension of the buffer can ever
/// form a valid frame.
pub fn decode_once(cfg: &Config, buffer: &[u8]) -> (r: Result<
    Option<(Vec<u8>, usize)>,
    DecodeError,
>)
    ensures
        reflects(run(cfg@, init(cfg@), buffer@), r),
{
    let mut st = State::initial(cfg);
    let n = buffer.len();
    proof {
        assert(buffer@.len() == n as int);
    }
    st.feed(cfg, buffer);
    st.poll()
}

/// The paused progress of an incremental decode: the engine's continuation
/// between chunks, together with its grammar.
pub struct ResumableState {
    cfg: Config,
    st: State,
}

impl View for ResumableState {
    type V = (SpecConfig, SpecState);

    closed spec fn view(&self) -> (SpecConfig, SpecState) {
        (self.cfg@, self.st@)
    }
}

impl ResumableState {
    /// The engine's internal consistency, established at construction and
    /// kept by every decode step: the machine invariant, and a consumed
    /// count that still fits the machine word.
    pub open spec fn wf(&self) -> bool {
        inv(self@.0, self@.1) && self@.1.total <= usize::MAX
    }

    /// A fresh decode of a new frame under `cfg`.
    pub fn new(cfg: Config) -> (r: ResumableState)
        ensures
            r@.0 == cfg@,
            r@.1 == init(cfg@),
            r.wf(),
    {
        let st = State::initial(&cfg);
        ResumableState { cfg, st }
    }

    /// Discards all progress, ready for the next frame of the same stream.
    pub fn reset(&mut self)
        ensures
            final(self)@.0 == old(self)@.0,
            final(self)@.1 == init(old(self)@.0),
            final(self).wf(),
    {
        self.st = State::initial(&self.cfg);
    }
}

/// Appends one chunk to an incremental decode and reports the outcome so
/// far: `Ok(None)` to request more bytes, `Ok(Some(body))` on a complete
/// frame, `Err(e)` when the stream can never become valid. After a
/// completed frame the state must be `reset` before the next one.
pub fn decode_step(state: &mut ResumableState, chunk: &[u8]) -> (r: Result<
    Option<Vec<u8>>,
    DecodeError,
>)
    requires
        old(state).wf(),
        old(state)@.1.total + chunk@.len() <= usize::MAX,
    ensures
        final(state).wf(),
        final(state)@.0 == old(state)@.0,
        final(state)@.1 == run(old(state)@.0, old(state)@.1, chunk@),
        reflects_step(final(state)@.1, r),
{
    proof {
        crate::machine::lemma_run_inv(old(state)@.0, old(state)@.1, chunk@);
    }
    state.st.feed(&state.cfg, chunk);
    match state.st.poll() {
        Ok(Some((m, _n))) => Ok(Some(m)),
        Ok(None) => Ok(None),
        Err(e) => Err(e),
    }
}

/// Decodes a stream supplied as a sequence of chunks, as repeated
/// `decode_step` calls would: the outcome depends only on the
/// concatenation of the chunks, never on where they were split.
pub fn decode_chunks(cfg: &Config, chunks: &Vec<Vec<u8>>) -> (r: Result<
    Option<Vec<u8>>,
    DecodeError,
>)
    requires
        chunks.deep_view().flatten().len() <= usize::MAX,
    ensures
        reflects_step(run(cfg@, init(cfg@), chunks.deep_view().flatten()), r),
{
    let ghost dv: Seq<Seq<u8>> = chunks.deep_view();
    let mut st = State::initial(cfg);
    let n = chunks.len();
    let mut i: usize = 0;
    while i < n
        invariant
            0 <= i <= n,
            n == dv.len(),
            dv == chunks.deep_view(),
            st@ == run(cfg@, init(cfg@), dv.take(i as int).flatten()),
            inv(cfg@, st@),
            st@.total <= dv.take(i as int).flatten().len(),
            dv.flatten().len() <= usize::MAX,
        decreases n - i,
    {
        proof {
            assert(dv.take(i + 1 as int) =~= dv.take(i as int).push(dv[i as int]));
            dv.take(i as int).lemma_flatten_push(dv[i as int]);
            assert(dv =~= dv.take(i + 1 as int) + dv.skip(i + 1 as int));
            lemma_flatten_concat(dv.take(i + 1 as int), dv.skip(i + 1 as int));
            assert(dv.take(i + 1 as int).flatten().len() <= dv.flatten().len());
            assert(dv[i as int] =~= chunks@[i as int]@);
            crate::laws::lemma_run_concat(
                cfg@,
                init(cfg@),
                dv.take(i as int).flatten(),
                dv[i as int],
            );
        }
        let ghost pre: SpecState = st@;
        st.feed(cfg, chunks[i].as_slice());
        proof {
            crate::machine::lemma_run_inv(cfg@, pre, dv[i as int]);
        }
        i = i + 1;
    }
    proof {
        assert(dv.take(n as int) =~= dv);
    }
    match st.poll() {
        Ok(Some((m, _n))) => Ok(Some(m)),
        Ok(None) => Ok(None),
        Err(e) => Err(e),
    }
}

} // verus!
