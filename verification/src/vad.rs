//! The decisions of the energy-based speech segmenter. Audio arrives in
//! small chunks; each chunk is loud or quiet (the loudness measure is the
//! caller's: root-mean-square amplitude against a threshold). Samples are
//! gathered from the first loud chunk on, and the gathered utterance is
//! handed out once the silence since the last loud chunk has lasted longer
//! than the hang-over: more quiet samples than the hang-over length.
use vstd::prelude::*;

verus! {

/// Gathers one utterance at a time out of a stream of chunks.
pub struct Segmenter<T> {
    hangover_samples: usize,
    buffer: Vec<T>,
    speaking: bool,
    silence_run: usize,
}

/// The segmenter's state as values: hang-over length, gathered samples, whether
/// speech is under way, and the quiet samples since the last loud chunk.
pub struct SegmenterView<T> {
    pub hangover: nat,
    pub buffer: Seq<T>,
    pub speaking: bool,
    pub silence_run: nat,
}

/// One chunk's effect on the segmenter: the next state and the utterance handed
/// out, if any.
pub open spec fn segment_step<T>(g: SegmenterView<T>, chunk: Seq<T>, loud: bool) -> (
    SegmenterView<T>,
    Option<Seq<T>>,
) {
    if loud {
        (SegmenterView { speaking: true, silence_run: 0, buffer: g.buffer + chunk, ..g }, None)
    } else if g.speaking {
        let run = g.silence_run + chunk.len();
        if run > g.hangover {
            (
                SegmenterView { speaking: false, silence_run: 0, buffer: Seq::empty(), ..g },
                Some(g.buffer + chunk),
            )
        } else {
            (SegmenterView { silence_run: run, buffer: g.buffer + chunk, ..g }, None)
        }
    } else {
        (g, None)
    }
}

/// A segmenter that has gathered nothing, with hang-over length `hangover`.
pub open spec fn fresh<T>(hangover: nat) -> SegmenterView<T> {
    SegmenterView { hangover, buffer: Seq::empty(), speaking: false, silence_run: 0 }
}

/// The samples of an optional utterance.
pub open spec fn samples_of<T>(r: Option<Vec<T>>) -> Option<Seq<T>> {
    match r {
        Some(v) => Some(v@),
        None => None,
    }
}

impl<T> Segmenter<T> {
    pub closed spec fn view(&self) -> SegmenterView<T> {
        SegmenterView {
            hangover: self.hangover_samples as nat,
            buffer: self.buffer@,
            speaking: self.speaking,
            silence_run: self.silence_run as nat,
        }
    }

    /// Quiet samples are counted among the gathered ones, and nothing is
    /// gathered outside speech.
    pub closed spec fn wf(&self) -> bool {
        &&& self.silence_run <= self.buffer@.len()
        &&& !self.speaking ==> self.buffer@.len() == 0 && self.silence_run == 0
    }
}

impl<T: Copy> Segmenter<T> {
    /// A segmenter that hands out an utterance once more than
    /// `hangover_samples` quiet samples have followed the speech.
    pub fn new(hangover_samples: usize) -> (g: Self)
        ensures
            g.wf(),
            g.view() == fresh::<T>(hangover_samples as nat),
    {
        Segmenter { hangover_samples, buffer: Vec::new(), speaking: false, silence_run: 0 }
    }

    fn gather(&mut self, chunk: &[T])
        ensures
            final(self).buffer@ == old(self).buffer@ + chunk@,
            final(self).hangover_samples == old(self).hangover_samples,
            final(self).speaking == old(self).speaking,
            final(self).silence_run == old(self).silence_run,
    {
        let ghost start = self.buffer@;
        let mut i: usize = 0;
        while i < chunk.len()
            invariant
                i <= chunk@.len(),
                self.buffer@ == start + chunk@.take(i as int),
                self.hangover_samples == old(self).hangover_samples,
                self.speaking == old(self).speaking,
                self.silence_run == old(self).silence_run,
            decreases chunk.len() - i,
        {
            self.buffer.push(chunk[i]);
            i = i + 1;
            assert(self.buffer@ =~= start + chunk@.take(i as int));
        }
        assert(chunk@.take(chunk@.len() as int) =~= chunk@);
    }

    /// Feeds one chunk, loud or quiet. Returns the finished utterance (all
    /// samples from its first loud chunk through this one) when the quiet
    /// run has grown longer than the hang-over length.
    pub fn push(&mut self, chunk: &[T], loud: bool) -> (r: Option<Vec<T>>)
        requires
            old(self).wf(),
        ensures
            final(self).wf(),
            (final(self).view(), samples_of(r)) == segment_step(old(self).view(), chunk@, loud),
    {
        if loud {
            self.speaking = true;
            self.silence_run = 0;
            self.gather(chunk);
            None
        } else if self.speaking {
            self.gather(chunk);
            let gathered = self.buffer.len();
            assert(self.silence_run + chunk@.len() <= gathered);
            self.silence_run = self.silence_run + chunk.len();
            if self.silence_run > self.hangover_samples {
                self.speaking = false;
                self.silence_run = 0;
                let mut out: Vec<T> = Vec::new();
                std::mem::swap(&mut out, &mut self.buffer);
                Some(out)
            } else {
                None
            }
        } else {
            None
        }
    }

    /// Whether speech is under way.
    pub fn is_speaking(&self) -> (b: bool)
        ensures
            b == self.view().speaking,
    {
        self.speaking
    }
}

// ---------------------------------------------------------------------
// Laws
// ---------------------------------------------------------------------

/// A quiet chunk while nobody speaks changes nothing and hands out nothing:
/// the segmenter stays silent through silence.
pub proof fn law_silence_stays_silent<T>(g: SegmenterView<T>, chunk: Seq<T>)
    requires
        !g.speaking,
    ensures
        segment_step(g, chunk, false) == (g, None::<Seq<T>>),
{
}

/// Loud chunks are never handed out on their own: an utterance only ever
/// ends on a quiet chunk.
pub proof fn law_loud_chunk_never_ends_utterance<T>(g: SegmenterView<T>, chunk: Seq<T>)
    ensures
        segment_step(g, chunk, true).1 is None,
        segment_step(g, chunk, true).0.speaking,
{
}

/// An utterance handed out holds everything gathered before plus the chunk
/// that ended it, and the segmenter starts afresh.
pub proof fn law_utterance_keeps_every_sample<T>(g: SegmenterView<T>, chunk: Seq<T>)
    requires
        g.speaking,
        g.silence_run + chunk.len() > g.hangover,
    ensures
        segment_step(g, chunk, false).1 == Some(g.buffer + chunk),
        segment_step(g, chunk, false).0.buffer.len() == 0,
        !segment_step(g, chunk, false).0.speaking,
{
}

/// The state after feeding chunks one by one (each with whether it is
/// loud), starting from `g`.
pub open spec fn feed<T>(g: SegmenterView<T>, cs: Seq<(Seq<T>, bool)>) -> SegmenterView<T>
    decreases cs.len(),
{
    if cs.len() == 0 {
        g
    } else {
        segment_step(feed(g, cs.drop_last()), cs.last().0, cs.last().1).0
    }
}

/// What feeding the `m`-th chunk hands out, starting from `g`.
pub open spec fn output_at<T>(g: SegmenterView<T>, cs: Seq<(Seq<T>, bool)>, m: int) -> Option<
    Seq<T>,
> {
    segment_step(feed(g, cs.take(m)), cs[m].0, cs[m].1).1
}

/// Index of the first loud chunk, or -1.
pub open spec fn first_loud<T>(cs: Seq<(Seq<T>, bool)>) -> int
    decreases cs.len(),
{
    if cs.len() == 0 {
        -1
    } else if first_loud(cs.drop_last()) >= 0 {
        first_loud(cs.drop_last())
    } else if cs.last().1 {
        cs.len() - 1
    } else {
        -1
    }
}

/// Index of the last loud chunk, or -1.
pub open spec fn last_loud<T>(cs: Seq<(Seq<T>, bool)>) -> int
    decreases cs.len(),
{
    if cs.len() == 0 {
        -1
    } else if cs.last().1 {
        cs.len() - 1
    } else {
        last_loud(cs.drop_last())
    }
}

/// The samples of the chunks from index `k` on, one after the other.
pub open spec fn samples_from<T>(cs: Seq<(Seq<T>, bool)>, k: int) -> Seq<T>
    decreases cs.len(),
{
    if cs.len() <= k || cs.len() == 0 {
        Seq::empty()
    } else {
        samples_from(cs.drop_last(), k) + cs.last().0
    }
}

/// The state after chunks none of which handed anything out: nothing while
/// no chunk was loud; otherwise speaking, with every sample from the first
/// loud chunk on, and the quiet samples since the last loud chunk counted.
pub open spec fn quiet_state<T>(hangover: nat, cs: Seq<(Seq<T>, bool)>) -> SegmenterView<T> {
    if first_loud(cs) < 0 {
        fresh(hangover)
    } else {
        SegmenterView {
            hangover,
            buffer: samples_from(cs, first_loud(cs)),
            speaking: true,
            silence_run: samples_from(cs, last_loud(cs) + 1).len(),
        }
    }
}

proof fn lemma_loud_bounds<T>(cs: Seq<(Seq<T>, bool)>)
    ensures
        -1 <= first_loud(cs) <= last_loud(cs) < cs.len(),
        first_loud(cs) < 0 <==> last_loud(cs) < 0,
    decreases cs.len(),
{
    if cs.len() > 0 {
        lemma_loud_bounds(cs.drop_last());
    }
}

proof fn lemma_quiet_prefix<T>(hangover: nat, cs: Seq<(Seq<T>, bool)>, m: int)
    requires
        0 <= m <= cs.len(),
        forall|i: int| 0 <= i < m ==> #[trigger] output_at(fresh(hangover), cs, i) is None,
    ensures
        feed(fresh::<T>(hangover), cs.take(m)) == quiet_state(hangover, cs.take(m)),
        first_loud(cs.take(m)) >= 0 ==> samples_from(cs.take(m), last_loud(cs.take(m)) + 1).len()
            <= hangover,
    decreases m,
{
    let g0 = fresh::<T>(hangover);
    if m == 0 {
        assert(cs.take(0) =~= Seq::<(Seq<T>, bool)>::empty());
    } else {
        lemma_quiet_prefix(hangover, cs, m - 1);
        let p = cs.take(m - 1);
        let q = cs.take(m);
        assert(q.drop_last() =~= p);
        assert(q.last() == cs[m - 1]);
        lemma_loud_bounds(p);
        assert(output_at(g0, cs, m - 1) is None);
        let c = cs[m - 1];
        if c.1 {
            assert(samples_from(q, last_loud(q) + 1) =~= Seq::<T>::empty());
            if first_loud(p) >= 0 {
                assert(samples_from(q, first_loud(q)) == samples_from(p, first_loud(p)) + c.0);
            } else {
                assert(samples_from(p, m - 1) =~= Seq::<T>::empty());
                assert(samples_from(q, first_loud(q)) =~= c.0);
            }
        } else if first_loud(p) >= 0 {
            assert(samples_from(q, first_loud(q)) == samples_from(p, first_loud(p)) + c.0);
            assert(samples_from(q, last_loud(q) + 1) == samples_from(p, last_loud(p) + 1) + c.0);
        }
    }
}

/// The segmenter over a series of chunks: starting fresh, after chunks that
/// each handed out nothing, the next chunk hands out an utterance exactly
/// when some chunk so far was loud, this one is quiet, and the quiet
/// chunks after the last loud one hold more samples than the hang-over.
/// The utterance is every sample from the first loud chunk through this
/// one (quiet chunks before it are dropped), and the segmenter is fresh
/// again afterwards.
pub proof fn law_utterance_over_chunks<T>(hangover: nat, cs: Seq<(Seq<T>, bool)>)
    requires
        cs.len() >= 1,
        forall|i: int| 0 <= i < cs.len() - 1 ==> #[trigger] output_at(fresh(hangover), cs, i) is None,
    ensures
        ({
            let (g, out) = segment_step(
                feed(fresh::<T>(hangover), cs.drop_last()),
                cs.last().0,
                cs.last().1,
            );
            &&& out is Some <==> (first_loud(cs) >= 0 && !cs.last().1 && samples_from(
                cs,
                last_loud(cs) + 1,
            ).len() > hangover)
            &&& out is Some ==> out == Some(samples_from(cs, first_loud(cs))) && g == fresh::<T>(
                hangover,
            )
        }),
{
    let n = cs.len() - 1;
    lemma_quiet_prefix(hangover, cs, n);
    let p = cs.take(n);
    assert(cs.drop_last() =~= p);
    assert(cs.take(n + 1) =~= cs);
    assert(cs.drop_last() == p);
    lemma_loud_bounds(p);
    let c = cs.last();
    if !c.1 && first_loud(p) >= 0 {
        assert(samples_from(cs, first_loud(cs)) == samples_from(p, first_loud(p)) + c.0);
        assert(samples_from(cs, last_loud(cs) + 1) == samples_from(p, last_loud(p) + 1) + c.0);
    }
}

} // verus!
