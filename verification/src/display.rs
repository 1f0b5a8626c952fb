//! What a segment looks like on the screen, as plain values: the text to show
//! and the emphasis to show it with.

use crate::runs::{runs_of, Run, Segment};
use crate::text::copy_chars;
use vstd::prelude::*;

verus! {

/// The character shown in place of one that has not been typed yet.
pub const PLACEHOLDER: char = '_';

/// The ways of showing text.
#[derive(Debug, Clone, Copy, PartialEq, Eq, Structural)]
pub enum Emphasis {
    /// Text typed as the target has it.
    Plain,
    /// Text typed wrongly.
    Error,
    /// Text typed beyond the end of a token.
    Excess,
    /// Room for text that has not been typed.
    Blank,
}

/// The mathematical model of a [`Span`].
pub struct SpanState {
    pub text: Seq<char>,
    pub emphasis: Emphasis,
}

/// A piece of text with the emphasis to show it with.
#[derive(Debug, PartialEq, Eq)]
pub struct Span {
    pub text: Vec<char>,
    pub emphasis: Emphasis,
}

impl View for Span {
    type V = SpanState;

    open spec fn view(&self) -> SpanState {
        SpanState { text: self.text@, emphasis: self.emphasis }
    }
}

/// The models of a sequence of spans.
pub open spec fn spans_of(spans: Seq<Span>) -> Seq<SpanState> {
    Seq::new(spans.len(), |k: int| spans[k]@)
}

/// As many placeholders as `text` has characters.
pub open spec fn blanks(text: Seq<char>) -> Seq<char> {
    Seq::new(text.len(), |k: int| PLACEHOLDER)
}

/// How a run is shown. Correct and excess text shows as typed. Where the
/// input is wrong the target's text shows, marked as an error. What has not
/// been typed shows as placeholders, one for each character.
pub open spec fn shown(run: Run) -> SpanState {
    match run {
        Run::Correct(text) => SpanState { text, emphasis: Emphasis::Plain },
        Run::Incorrect { target, input } => SpanState { text: target, emphasis: Emphasis::Error },
        Run::Excess(text) => SpanState { text, emphasis: Emphasis::Excess },
        Run::NoInput(text) => SpanState { text: blanks(text), emphasis: Emphasis::Blank },
    }
}

/// The span that shows `segment`.
pub fn paint_segment(segment: &Segment) -> (span: Span)
    ensures
        span@ == shown(segment@),
{
    match segment {
        Segment::Correct(text) => Span { text: copy_chars(text), emphasis: Emphasis::Plain },
        Segment::Incorrect { target, input } => Span {
            text: copy_chars(target),
            emphasis: Emphasis::Error,
        },
        Segment::Excess(text) => Span { text: copy_chars(text), emphasis: Emphasis::Excess },
        Segment::NoInput(text) => {
            let mut room: Vec<char> = Vec::new();
            let mut k: usize = 0;
            while k < text.len()
                invariant
                    k <= text.len(),
                    room@ == blanks(text@.take(k as int)),
                decreases text.len() - k,
            {
                room.push(PLACEHOLDER);
                assert(room@ =~= blanks(text@.take(k + 1)));
                k += 1;
            }
            assert(text@.take(k as int) =~= text@);
            Span { text: room, emphasis: Emphasis::Blank }
        },
    }
}

/// How a sequence of runs is shown: every run by a span of its own.
pub open spec fn painted(runs: Seq<Run>) -> Seq<SpanState> {
    Seq::new(runs.len(), |k: int| shown(runs[k]))
}

/// The spans that show `segments`, one for each segment, in their order.
pub fn paint(segments: &Vec<Segment>) -> (spans: Vec<Span>)
    ensures
        spans_of(spans@) == painted(runs_of(segments@)),
{
    let mut spans: Vec<Span> = Vec::new();
    let mut k: usize = 0;
    while k < segments.len()
        invariant
            k <= segments.len(),
            spans@.len() == k,
            forall|j: int| 0 <= j < k ==> (#[trigger] spans@[j])@ == shown(segments@[j]@),
        decreases segments.len() - k,
    {
        spans.push(paint_segment(&segments[k]));
        k += 1;
    }
    assert(spans_of(spans@) =~= painted(runs_of(segments@)));
    spans
}

} // verus!
