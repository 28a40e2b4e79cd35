//! Transcript cleanup by a small instruction-following language model:
//! the prompt it gets, how much it may generate, how its streamed output is
//! collected, and what is kept of it.
use vstd::prelude::*;
use crate::text::{
    chars_of, contains, count_words, find_from, is_blank, is_white_space, lemma_trim_shape,
    occurs_at, push_all, push_range, push_str, string_of, trim, trimmed, word_count,
};

verus! {

/// The instruction the model gets before the transcript.
pub const SYSTEM_PROMPT: &'static str = "Clean up this dictated transcript by removing false starts and self-corrections (e.g. \"go to school, sorry, the market\" -> \"go to the market\"). Keep the rest unchanged. Output only the corrected text, nothing else.";

/// The marker that ends the model's turn.
pub const END_OF_TURN: &'static str = "<|im_end|>";

/// The chat-formatted prompt for one transcript.
pub open spec fn prompt_for(raw: Seq<char>) -> Seq<char> {
    "<|im_start|>system\n"@ + SYSTEM_PROMPT@ + "<|im_end|>\n<|im_start|>user\n"@ + raw
        + "<|im_end|>\n<|im_start|>assistant\n"@
}

/// Builds the chat-formatted prompt for one transcript.
pub fn cleanup_prompt(raw: &str) -> (p: String)
    ensures
        p@ == prompt_for(raw@),
{
    let mut out: Vec<char> = Vec::new();
    push_str(&mut out, "<|im_start|>system\n");
    push_str(&mut out, SYSTEM_PROMPT);
    push_str(&mut out, "<|im_end|>\n<|im_start|>user\n");
    push_str(&mut out, raw);
    push_str(&mut out, "<|im_end|>\n<|im_start|>assistant\n");
    string_of(&out)
}

/// How many tokens the model may generate for a transcript: three per word
/// plus 32, at most 256.
pub open spec fn budget_for(raw: Seq<char>) -> nat {
    let b = word_count(raw) * 3 + 32;
    if b < 256 {
        b
    } else {
        256
    }
}

/// The generation budget for a transcript (a cleaned transcript is never
/// much longer than the dictated one).
pub fn completion_budget(raw: &str) -> (n: usize)
    ensures
        n == budget_for(raw@),
{
    let v = chars_of(raw);
    let w = count_words(&v);
    if w >= 75 {
        256
    } else {
        w * 3 + 32
    }
}

/// The text before the first end-of-turn marker in a piece that holds one.
pub open spec fn before_marker(piece: Seq<char>) -> Seq<char> {
    let i = choose|i: int|
        occurs_at(piece, END_OF_TURN@, i) && forall|j: int|
            0 <= j < i ==> !occurs_at(piece, END_OF_TURN@, j);
    piece.take(i)
}

/// The model output collected from streamed pieces: pieces are taken whole
/// until one holds the end-of-turn marker; of that one only the text before
/// the marker is taken, and nothing after it.
pub open spec fn collect_pieces(pieces: Seq<Seq<char>>) -> Seq<char>
    decreases pieces.len(),
{
    if pieces.len() == 0 {
        Seq::empty()
    } else if contains(pieces[0], END_OF_TURN@) {
        before_marker(pieces[0])
    } else {
        pieces[0] + collect_pieces(pieces.drop_first())
    }
}

/// What is kept of the model output: the output trimmed, or the dictated
/// text itself when nothing is left of it.
pub open spec fn keep_output(output: Seq<char>, raw: Seq<char>) -> Seq<char> {
    if trim(output).len() == 0 {
        raw
    } else {
        trim(output)
    }
}

/// The cleaned transcript for a dictated text and the pieces the model
/// streamed for it; a blank text is answered with an empty one (the model is
/// not asked).
pub open spec fn cleaned(raw: Seq<char>, pieces: Seq<Seq<char>>) -> Seq<char> {
    if trim(raw).len() == 0 {
        Seq::empty()
    } else {
        keep_output(collect_pieces(pieces), raw)
    }
}

/// Whether a transcript is blank, in which case cleanup returns an empty
/// text without asking the model.
pub fn is_blank_text(raw: &str) -> (b: bool)
    ensures
        b == (trim(raw@).len() == 0),
{
    let v = chars_of(raw);
    is_blank(&v)
}

/// Collects the model's streamed output piece by piece.
pub struct CompletionCollector {
    output: Vec<char>,
    finished: bool,
}

impl CompletionCollector {
    /// The text collected so far.
    pub closed spec fn collected(&self) -> Seq<char> {
        self.output@
    }

    /// Whether the end-of-turn marker has been seen.
    pub closed spec fn is_finished(&self) -> bool {
        self.finished
    }

    /// A collector that has seen nothing.
    pub fn new() -> (c: Self)
        ensures
            c.collected() == Seq::<char>::empty(),
            !c.is_finished(),
    {
        CompletionCollector { output: Vec::new(), finished: false }
    }

    /// Takes the next piece. Returns whether more pieces are wanted: `false`
    /// once the piece held the end-of-turn marker.
    pub fn accept(&mut self, piece: &str) -> (more: bool)
        requires
            !old(self).is_finished(),
        ensures
            more == !final(self).is_finished(),
            more == !contains(piece@, END_OF_TURN@),
            more ==> final(self).collected() == old(self).collected() + piece@,
            !more ==> final(self).collected() == old(self).collected() + before_marker(piece@),
    {
        let p = chars_of(piece);
        let m = chars_of(END_OF_TURN);
        match find_from(&p, &m, 0) {
            Some(i) => {
                proof {
                    assert(occurs_at(p@, m@, i as int));
                    let j = choose|j: int|
                        occurs_at(p@, END_OF_TURN@, j) && forall|k: int|
                            0 <= k < j ==> !occurs_at(p@, END_OF_TURN@, k);
                    assert(j == i as int);
                }
                let ghost before = self.output@;
                push_range(&mut self.output, &p, 0, i);
                assert(p@.subrange(0, i as int) =~= p@.take(i as int));
                self.finished = true;
                false
            },
            None => {
                push_all(&mut self.output, &p);
                true
            },
        }
    }

    /// What is kept: the collected output trimmed, or `raw` when nothing is
    /// left of it.
    pub fn finish(self, raw: &str) -> (r: String)
        ensures
            r@ == keep_output(self.collected(), raw@),
    {
        let t = trimmed(&self.output);
        if t.len() == 0 {
            let v = chars_of(raw);
            string_of(&v)
        } else {
            string_of(&t)
        }
    }
}

/// The cleaned transcript for `raw`, given the pieces the model streamed
/// for its prompt.
pub fn clean_from_pieces(raw: &str, pieces: &Vec<String>) -> (r: String)
    ensures
        r@ == cleaned(raw@, pieces@.map_values(|p: String| p@)),
{
    let ghost views = pieces@.map_values(|p: String| p@);
    if is_blank_text(raw) {
        return String::new();
    }
    let mut c = CompletionCollector::new();
    let mut i: usize = 0;
    assert(views.skip(0) =~= views);
    while i < pieces.len()
        invariant
            i <= pieces@.len(),
            views == pieces@.map_values(|p: String| p@),
            !c.is_finished(),
            trim(raw@).len() > 0,
            c.collected() + collect_pieces(views.skip(i as int)) == collect_pieces(views),
        decreases pieces.len() - i,
    {
        proof {
            assert(views.skip(i as int).drop_first() =~= views.skip(i + 1));
            assert(views.skip(i as int)[0] == pieces@[i as int]@);
        }
        let ghost before = c.collected();
        let more = c.accept(pieces[i].as_str());
        if !more {
            assert(collect_pieces(views.skip(i as int)) == before_marker(pieces@[i as int]@));
            assert(c.collected() =~= collect_pieces(views));
            return c.finish(raw);
        }
        assert(c.collected() + collect_pieces(views.skip(i + 1)) =~= collect_pieces(views));
        i = i + 1;
    }
    assert(views.skip(i as int) =~= Seq::<Seq<char>>::empty());
    assert(c.collected() =~= collect_pieces(views));
    c.finish(raw)
}

// ---------------------------------------------------------------------
// Laws
// ---------------------------------------------------------------------

/// A blank transcript is cleaned to an empty text, whatever the model
/// would say.
pub proof fn law_blank_gives_empty(raw: Seq<char>, pieces: Seq<Seq<char>>)
    requires
        trim(raw).len() == 0,
    ensures
        cleaned(raw, pieces) == Seq::<char>::empty(),
{
}

/// Cleanup never loses a dictation: a transcript with any content comes
/// back with content, the dictated text itself when the model gave nothing.
pub proof fn law_content_is_never_lost(raw: Seq<char>, pieces: Seq<Seq<char>>)
    requires
        trim(raw).len() > 0,
    ensures
        cleaned(raw, pieces).len() > 0,
{
    lemma_trim_empty_of_empty(raw);
}

proof fn lemma_trim_empty_of_empty(s: Seq<char>)
    ensures
        s.len() == 0 ==> trim(s).len() == 0,
{
    if s.len() == 0 {
        assert(crate::text::trim_start(s) == s);
        assert(crate::text::trim_end(s) == s);
    }
}

/// The generation budget is between 32 and 256 tokens.
pub proof fn law_budget_bounds(raw: Seq<char>)
    ensures
        32 <= budget_for(raw) <= 256,
{
}

/// Kept model output is trimmed at both ends: when the collected output is
/// not blank, what is kept is a stretch of it that neither starts nor ends
/// with white space, and only white space of the output lies outside it.
pub proof fn law_kept_output_is_trimmed(output: Seq<char>, raw: Seq<char>)
    requires
        trim(output).len() > 0,
    ensures
        keep_output(output, raw) == trim(output),
        keep_output(output, raw).len() > 0,
        !is_white_space(keep_output(output, raw)[0]),
        !is_white_space(keep_output(output, raw).last()),
        exists|i: int|
            0 <= i && i + keep_output(output, raw).len() <= output.len() && #[trigger] output.subrange(
                i,
                i + keep_output(output, raw).len(),
            ) == keep_output(output, raw) && (forall|k: int|
                0 <= k < i ==> is_white_space(#[trigger] output[k])) && (forall|k: int|
                i + keep_output(output, raw).len() <= k < output.len() ==> is_white_space(
                    #[trigger] output[k],
                )),
{
    let (i, j) = lemma_trim_shape(output);
    let r = keep_output(output, raw);
    assert(r == output.subrange(i, j));
    assert(r[0] == output[i]);
    assert(r.last() == output[j - 1]);
    assert(output.subrange(i, i + r.len()) == r);
}

} // verus!
