//! The decisions of the dictation loop: what the push-to-talk hotkey does
//! to the recording, what becomes of a transcription, which model is loaded
//! at start, when the microphone counts as lost, and what the status
//! indicator shows.
use vstd::prelude::*;
use crate::corrections::{apply_replacements, apply_rules, ReplacementRule};
use crate::digits::{fix_digit_sequences, fix_digits};
use crate::hardware::{tier_model, Tier};
use crate::hotkeys::PushToTalkEvent;
use crate::models::{catalog, find_entry, find_model, law_every_tier_model_is_cataloged, tier_entry, ModelEntry};
use crate::text::{chars_of, contains, contains_chars, push_all, push_str, string_of, trim, trimmed};

verus! {

// ---------------------------------------------------------------------
// Recording
// ---------------------------------------------------------------------

/// Audio gathered while the push-to-talk hotkey is held.
pub struct Recorder<T> {
    recording: bool,
    buffer: Vec<T>,
}

/// The recorder as values: whether the hotkey is held, and the audio
/// gathered since it was last pressed.
pub struct RecorderView<T> {
    pub recording: bool,
    pub buffer: Seq<T>,
}

/// Pressing starts a fresh recording.
pub open spec fn after_press<T>(r: RecorderView<T>) -> RecorderView<T> {
    RecorderView { recording: true, buffer: Seq::empty() }
}

/// Releasing stops recording; the gathered audio is kept (and handed out).
pub open spec fn after_release<T>(r: RecorderView<T>) -> RecorderView<T> {
    RecorderView { recording: false, ..r }
}

/// Audio counts only while recording.
pub open spec fn after_audio<T>(r: RecorderView<T>, chunk: Seq<T>) -> RecorderView<T> {
    if r.recording {
        RecorderView { buffer: r.buffer + chunk, ..r }
    } else {
        r
    }
}

/// The audio of all chunks, one after the other.
pub open spec fn concat_chunks<T>(chunks: Seq<Seq<T>>) -> Seq<T>
    decreases chunks.len(),
{
    if chunks.len() == 0 {
        Seq::empty()
    } else {
        concat_chunks(chunks.drop_last()) + chunks.last()
    }
}

/// The recorder after a series of chunks.
pub open spec fn after_chunks<T>(r: RecorderView<T>, chunks: Seq<Seq<T>>) -> RecorderView<T>
    decreases chunks.len(),
{
    if chunks.len() == 0 {
        r
    } else {
        after_audio(after_chunks(r, chunks.drop_last()), chunks.last())
    }
}

impl<T> Recorder<T> {
    pub closed spec fn view(&self) -> RecorderView<T> {
        RecorderView { recording: self.recording, buffer: self.buffer@ }
    }
}

impl<T: Copy> Recorder<T> {
    /// Not recording, nothing gathered.
    pub fn new() -> (r: Self)
        ensures
            r.view() == (RecorderView::<T> { recording: false, buffer: Seq::empty() }),
    {
        Recorder { recording: false, buffer: Vec::new() }
    }

    /// Handles a hotkey event. Pressing starts a fresh recording and gives
    /// nothing; releasing stops it and gives the audio gathered since the
    /// press.
    pub fn hotkey(&mut self, event: PushToTalkEvent) -> (audio: Option<Vec<T>>)
        ensures
            event == PushToTalkEvent::Pressed ==> final(self).view() == after_press(old(self).view())
                && audio is None,
            event == PushToTalkEvent::Released ==> final(self).view() == after_release(
                old(self).view(),
            ) && (audio matches Some(a) && a@ == old(self).view().buffer),
    {
        match event {
            PushToTalkEvent::Pressed => {
                self.recording = true;
                self.buffer = Vec::new();
                None
            },
            PushToTalkEvent::Released => {
                self.recording = false;
                let mut copy: Vec<T> = Vec::new();
                let mut i: usize = 0;
                while i < self.buffer.len()
                    invariant
                        i <= self.buffer@.len(),
                        copy@ == self.buffer@.take(i as int),
                    decreases self.buffer.len() - i,
                {
                    copy.push(self.buffer[i]);
                    i = i + 1;
                    assert(copy@ =~= self.buffer@.take(i as int));
                }
                assert(self.buffer@.take(self.buffer@.len() as int) =~= self.buffer@);
                Some(copy)
            },
        }
    }

    /// Whether audio is being gathered (so incoming audio is wanted).
    pub fn is_recording(&self) -> (b: bool)
        ensures
            b == self.view().recording,
    {
        self.recording
    }

    /// Takes a chunk of mono audio; it is kept only while recording.
    pub fn audio(&mut self, chunk: &[T])
        ensures
            final(self).view() == after_audio(old(self).view(), chunk@),
    {
        if self.recording {
            let ghost start = self.buffer@;
            let mut i: usize = 0;
            while i < chunk.len()
                invariant
                    i <= chunk@.len(),
                    self.recording,
                    self.buffer@ == start + chunk@.take(i as int),
                decreases chunk.len() - i,
            {
                self.buffer.push(chunk[i]);
                i = i + 1;
                assert(self.buffer@ =~= start + chunk@.take(i as int));
            }
            assert(chunk@.take(chunk@.len() as int) =~= chunk@);
        }
    }
}

/// What is transcribed is exactly the audio that arrived between pressing
/// and releasing the hotkey.
pub proof fn law_release_gives_audio_since_press<T>(r: RecorderView<T>, chunks: Seq<Seq<T>>)
    ensures
        after_chunks(after_press(r), chunks).buffer == concat_chunks(chunks),
        after_chunks(after_press(r), chunks).recording,
    decreases chunks.len(),
{
    if chunks.len() > 0 {
        law_release_gives_audio_since_press(r, chunks.drop_last());
    }
}

/// Audio that arrives while the hotkey is not held is dropped.
pub proof fn law_idle_audio_is_dropped<T>(r: RecorderView<T>, chunks: Seq<Seq<T>>)
    requires
        !r.recording,
    ensures
        after_chunks(r, chunks) == r,
    decreases chunks.len(),
{
    if chunks.len() > 0 {
        law_idle_audio_is_dropped(r, chunks.drop_last());
    }
}

// ---------------------------------------------------------------------
// Transcription results
// ---------------------------------------------------------------------

/// What becomes of a finished transcription.
pub enum Delivery {
    /// Type this text into the focused application.
    Type(String),
    /// Show this warning.
    Warn(String),
    /// Nothing to do.
    Nothing,
}

/// What a delivery means, as values.
pub enum DeliveryView {
    Type(Seq<char>),
    Warn(Seq<char>),
    Nothing,
}

pub open spec fn delivery_view(d: Delivery) -> DeliveryView {
    match d {
        Delivery::Type(s) => DeliveryView::Type(s@),
        Delivery::Warn(s) => DeliveryView::Warn(s@),
        Delivery::Nothing => DeliveryView::Nothing,
    }
}

/// A non-empty transcript is typed after digit-sequence repair and then the
/// user's corrections; a failed transcription is reported; an empty one, or
/// none at all (no model loaded), leads to nothing.
pub open spec fn delivery_for(
    result: Option<Result<Seq<char>, Seq<char>>>,
    rules: Seq<ReplacementRule>,
) -> DeliveryView {
    match result {
        Some(Ok(text)) => if text.len() > 0 {
            DeliveryView::Type(apply_rules(fix_digits(text), rules))
        } else {
            DeliveryView::Nothing
        },
        Some(Err(e)) => DeliveryView::Warn("Transcription failed: "@ + e),
        None => DeliveryView::Nothing,
    }
}

pub open spec fn result_view(r: Option<Result<String, String>>) -> Option<Result<Seq<char>, Seq<char>>> {
    match r {
        Some(Ok(t)) => Some(Ok(t@)),
        Some(Err(e)) => Some(Err(e@)),
        None => None,
    }
}

/// Decides what to do with a transcription: `None` when no model was
/// loaded, otherwise the transcript or the error message.
pub fn deliver_transcript(result: Option<Result<String, String>>, rules: &[ReplacementRule]) -> (d: Delivery)
    ensures
        delivery_view(d) == delivery_for(result_view(result), rules@),
{
    match result {
        Some(Ok(text)) => {
            let t = chars_of(text.as_str());
            if t.len() > 0 {
                let corrected = fix_digit_sequences(text.as_str());
                Delivery::Type(apply_replacements(corrected.as_str(), rules))
            } else {
                Delivery::Nothing
            }
        },
        Some(Err(e)) => {
            let mut out: Vec<char> = Vec::new();
            push_str(&mut out, "Transcription failed: ");
            push_str(&mut out, e.as_str());
            Delivery::Warn(string_of(&out))
        },
        None => Delivery::Nothing,
    }
}

/// An empty transcript never types anything.
pub proof fn law_empty_transcript_types_nothing(rules: Seq<ReplacementRule>)
    ensures
        delivery_for(Some(Ok(Seq::<char>::empty())), rules) == DeliveryView::Nothing,
{
}

/// Digit repair does not depend on the correction rules: a non-empty
/// transcript is typed as its digit-repaired form with the rules applied
/// afterwards, so with no rules it is typed exactly as repaired, and with
/// rules it is what the rules make of the text typed under no rules.
pub proof fn law_digits_repaired_whatever_the_rules(t: Seq<char>, rules: Seq<ReplacementRule>)
    requires
        t.len() > 0,
    ensures
        delivery_for(Some(Ok(t)), rules) == DeliveryView::Type(apply_rules(fix_digits(t), rules)),
        delivery_for(Some(Ok(t)), Seq::<ReplacementRule>::empty()) == DeliveryView::Type(
            fix_digits(t),
        ),
        delivery_for(Some(Ok(t)), rules) == DeliveryView::Type(
            apply_rules(delivery_for(Some(Ok(t)), Seq::<ReplacementRule>::empty())->Type_0, rules),
        ),
{
}

/// The words one after the other, with `sep` between each two.
pub open spec fn join_with(words: Seq<Seq<char>>, sep: Seq<char>) -> Seq<char>
    decreases words.len(),
{
    if words.len() == 0 {
        Seq::empty()
    } else if words.len() == 1 {
        words[0]
    } else {
        join_with(words.drop_last(), sep) + sep + words.last()
    }
}

/// The recognizer's initial prompt: the vocabulary joined with `", "`.
pub fn vocabulary_prompt(words: &[String]) -> (p: String)
    ensures
        p@ == join_with(words@.map_values(|w: String| w@), ", "@),
{
    let ghost views = words@.map_values(|w: String| w@);
    let mut out: Vec<char> = Vec::new();
    let mut i: usize = 0;
    while i < words.len()
        invariant
            i <= words@.len(),
            views == words@.map_values(|w: String| w@),
            out@ == join_with(views.take(i as int), ", "@),
        decreases words.len() - i,
    {
        proof {
            assert(views.take(i + 1).drop_last() =~= views.take(i as int));
        }
        if i > 0 {
            push_str(&mut out, ", ");
        }
        push_str(&mut out, words[i].as_str());
        proof {
            if i == 0 {
                assert(out@ =~= views.take(1)[0]);
            }
        }
        i = i + 1;
    }
    assert(views.take(words@.len() as int) =~= views);
    string_of(&out)
}

/// All pieces, one after the other.
pub open spec fn concat_all(pieces: Seq<Seq<char>>) -> Seq<char>
    decreases pieces.len(),
{
    if pieces.len() == 0 {
        Seq::empty()
    } else {
        concat_all(pieces.drop_last()) + pieces.last()
    }
}

/// The transcript from the recognizer's segments: their text joined and
/// trimmed.
pub fn transcript_text(segments: &[String]) -> (t: String)
    ensures
        t@ == trim(concat_all(segments@.map_values(|s: String| s@))),
{
    let ghost views = segments@.map_values(|s: String| s@);
    let mut out: Vec<char> = Vec::new();
    let mut i: usize = 0;
    while i < segments.len()
        invariant
            i <= segments@.len(),
            views == segments@.map_values(|s: String| s@),
            out@ == concat_all(views.take(i as int)),
        decreases segments.len() - i,
    {
        proof {
            assert(views.take(i + 1).drop_last() =~= views.take(i as int));
        }
        push_str(&mut out, segments[i].as_str());
        i = i + 1;
    }
    assert(views.take(segments@.len() as int) =~= views);
    let t = trimmed(&out);
    string_of(&t)
}

// ---------------------------------------------------------------------
// The loop's steps, in order
// ---------------------------------------------------------------------

/// One thing the dictation loop does, in the order given.
pub enum LoopStep<T> {
    /// Show this status (tray line, status event, recording indicator).
    ShowStatus(String),
    /// Transcribe this audio.
    Transcribe(Vec<T>),
    /// Show this warning.
    Warn(String),
    /// Type this text into the focused application.
    TypeText(String),
}

/// A step as values.
pub enum StepView<T> {
    ShowStatus(Seq<char>),
    Transcribe(Seq<T>),
    Warn(Seq<char>),
    TypeText(Seq<char>),
}

pub open spec fn step_view<T>(s: LoopStep<T>) -> StepView<T> {
    match s {
        LoopStep::ShowStatus(t) => StepView::ShowStatus(t@),
        LoopStep::Transcribe(a) => StepView::Transcribe(a@),
        LoopStep::Warn(w) => StepView::Warn(w@),
        LoopStep::TypeText(t) => StepView::TypeText(t@),
    }
}

pub open spec fn steps_view<T>(steps: Seq<LoopStep<T>>) -> Seq<StepView<T>> {
    steps.map_values(|s: LoopStep<T>| step_view(s))
}

/// What a hotkey event makes the loop do: pressing shows "listening...";
/// releasing shows "transcribing..." and has the audio gathered since the
/// press transcribed.
pub open spec fn hotkey_steps<T>(event: PushToTalkEvent, before: RecorderView<T>) -> Seq<
    StepView<T>,
> {
    match event {
        PushToTalkEvent::Pressed => seq![StepView::ShowStatus("listening..."@)],
        PushToTalkEvent::Released => seq![
            StepView::ShowStatus("transcribing..."@),
            StepView::Transcribe(before.buffer),
        ],
    }
}

/// What follows a transcription: a warning first if it failed, then the
/// "idle" status, then the typing of the text if there is one.
pub open spec fn transcription_steps<T>(d: DeliveryView) -> Seq<StepView<T>> {
    match d {
        DeliveryView::Warn(w) => seq![StepView::Warn(w), StepView::ShowStatus("idle"@)],
        DeliveryView::Type(t) => seq![StepView::ShowStatus("idle"@), StepView::TypeText(t)],
        DeliveryView::Nothing => seq![StepView::ShowStatus("idle"@)],
    }
}

fn status_step<T>(text: &str) -> (s: LoopStep<T>)
    ensures
        step_view(s) == StepView::<T>::ShowStatus(text@),
{
    let v = chars_of(text);
    LoopStep::ShowStatus(string_of(&v))
}

impl<T: Copy> Recorder<T> {
    /// Handles a hotkey event and gives the loop's steps for it, in order.
    pub fn on_hotkey(&mut self, event: PushToTalkEvent) -> (steps: Vec<LoopStep<T>>)
        ensures
            event == PushToTalkEvent::Pressed ==> final(self).view() == after_press(
                old(self).view(),
            ),
            event == PushToTalkEvent::Released ==> final(self).view() == after_release(
                old(self).view(),
            ),
            steps_view(steps@) == hotkey_steps(event, old(self).view()),
    {
        let audio = self.hotkey(event);
        let mut steps: Vec<LoopStep<T>> = Vec::new();
        match event {
            PushToTalkEvent::Pressed => {
                steps.push(status_step("listening..."));
            },
            PushToTalkEvent::Released => {
                steps.push(status_step("transcribing..."));
                match audio {
                    Some(a) => steps.push(LoopStep::Transcribe(a)),
                    None => {},
                }
            },
        }
        assert(steps_view(steps@) =~= hotkey_steps(event, old(self).view()));
        steps
    }
}

/// The loop's steps once a transcription is back: `None` when no model was
/// loaded, otherwise the transcript or the error message.
pub fn transcription_done<T>(result: Option<Result<String, String>>, rules: &[ReplacementRule]) -> (steps: Vec<LoopStep<T>>)
    ensures
        steps_view(steps@) == transcription_steps::<T>(delivery_for(result_view(result), rules@)),
{
    let d = deliver_transcript(result, rules);
    let mut steps: Vec<LoopStep<T>> = Vec::new();
    match d {
        Delivery::Warn(w) => {
            steps.push(LoopStep::Warn(w));
            steps.push(status_step("idle"));
        },
        Delivery::Type(t) => {
            steps.push(status_step("idle"));
            steps.push(LoopStep::TypeText(t));
        },
        Delivery::Nothing => {
            steps.push(status_step("idle"));
        },
    }
    assert(steps_view(steps@) =~= transcription_steps::<T>(delivery_for(result_view(result), rules@)));
    steps
}

/// A failed transcription is reported before the status returns to idle,
/// and text is typed only after it has.
pub proof fn law_idle_before_typing<T>(d: DeliveryView)
    ensures
        transcription_steps::<T>(d).len() >= 1,
        d is Type ==> transcription_steps::<T>(d)[0] == StepView::<T>::ShowStatus("idle"@)
            && transcription_steps::<T>(d).last() == StepView::<T>::TypeText(d->Type_0),
        d is Warn ==> transcription_steps::<T>(d)[0] == StepView::<T>::Warn(d->Warn_0),
        d is Nothing ==> transcription_steps::<T>(d) == seq![StepView::<T>::ShowStatus("idle"@)],
{
}

// ---------------------------------------------------------------------
// Model choice at start
// ---------------------------------------------------------------------

/// The remembered model, when one is remembered and the catalog has it.
pub fn remembered_model(saved: &Option<String>) -> (r: Option<ModelEntry>)
    ensures
        r == match saved {
            Some(id) => find_entry(catalog(), id@),
            None => None,
        },
{
    match saved {
        Some(id) => find_model(id.as_str()),
        None => None,
    }
}

/// The catalog entry of a tier's model (it is always there).
pub fn model_for_tier(t: Tier) -> (e: ModelEntry)
    ensures
        tier_entry(t) == Some(e),
        e.id@ == tier_model(t),
{
    proof {
        law_every_tier_model_is_cataloged(t);
    }
    let id = t.recommended_model();
    find_model(id).unwrap()
}

// ---------------------------------------------------------------------
// Microphone watchdog and status display
// ---------------------------------------------------------------------

/// How long the microphone may stay silent before it counts as lost.
pub const AUDIO_STALL_NANOS: u128 = 5000000000;

/// Whether the time since the last audio chunk means the microphone is
/// lost: more than five seconds.
pub fn audio_stalled(nanos_since_last_chunk: u128) -> (b: bool)
    ensures
        b == (nanos_since_last_chunk > AUDIO_STALL_NANOS),
{
    nanos_since_last_chunk > AUDIO_STALL_NANOS
}

/// Whether the recording indicator is shown for a status: while listening
/// or transcribing.
pub open spec fn indicator_shown(status: Seq<char>) -> bool {
    contains(status, "listening"@) || contains(status, "transcribing"@)
}

/// Whether the recording indicator is shown for a status text.
pub fn hud_visible(status: &str) -> (b: bool)
    ensures
        b == indicator_shown(status@),
{
    let s = chars_of(status);
    let a = chars_of("listening");
    if contains_chars(&s, &a) {
        return true;
    }
    let b = chars_of("transcribing");
    contains_chars(&s, &b)
}

/// The tray menu's status line.
pub fn tray_status(status: &str) -> (t: String)
    ensures
        t@ == "Status: "@ + status@,
{
    let mut out: Vec<char> = Vec::new();
    push_str(&mut out, "Status: ");
    push_str(&mut out, status);
    string_of(&out)
}

} // verus!
