//! One word of a session: what has been typed for it and how long it has
//! taken.

use crate::corpus::WordData;
use crate::text::chars_of;
use crate::timer::{lemma_timer_spent, lemma_timer_steps, Timer, TimerState};
use vstd::prelude::*;

verus! {

/// The mathematical model of a [`SessionWord`].
pub struct WordState {
    /// The word to type.
    pub text: Seq<char>,
    /// What the word means, where the corpus says so.
    pub definition: Option<Seq<char>>,
    /// What has been typed for the word.
    pub buffer: Seq<char>,
    /// The time taken over the word.
    pub timer: TimerState,
}

impl WordState {
    /// A burst runs only while something is typed.
    pub open spec fn wf(self) -> bool {
        &&& self.timer.wf()
        &&& self.timer.is_active() ==> self.buffer.len() > 0
    }

    /// A word that nobody has touched.
    pub open spec fn fresh(text: Seq<char>, definition: Option<Seq<char>>) -> WordState {
        WordState { text, definition, buffer: Seq::empty(), timer: TimerState::fresh() }
    }

    /// The word after `c` was typed at `now`: the character joins the buffer,
    /// and a burst begins unless one is running.
    pub open spec fn type_char(self, c: char, now: int) -> WordState {
        WordState { buffer: self.buffer.push(c), timer: self.timer.start(now), ..self }
    }

    /// The word after a backspace at `now`: the last typed character goes,
    /// and with the last one of all the burst ends. On an empty buffer
    /// nothing changes.
    pub open spec fn backspace(self, now: int) -> WordState {
        if self.buffer.len() == 0 {
            self
        } else if self.buffer.len() == 1 {
            WordState { buffer: self.buffer.drop_last(), timer: self.timer.stop(now), ..self }
        } else {
            WordState { buffer: self.buffer.drop_last(), timer: self.timer.observe(now), ..self }
        }
    }

    /// The word after it was left at `now`: the burst ends, what was typed
    /// stays.
    pub open spec fn finish(self, now: int) -> WordState {
        WordState { timer: self.timer.stop(now), ..self }
    }
}

/// The word that a session makes of a corpus record.
pub open spec fn word_of(record: WordData) -> WordState {
    WordState::fresh(
        record.word@,
        match record.definitions {
            Some(d) => Some(d@),
            None => None,
        },
    )
}

/// One word of a session with its input buffer and its timer.
#[derive(Debug)]
pub struct SessionWord {
    text: Vec<char>,
    definition: Option<String>,
    buffer: Vec<char>,
    timer: Timer,
}

impl View for SessionWord {
    type V = WordState;

    closed spec fn view(&self) -> WordState {
        WordState {
            text: self.text@,
            definition: match self.definition {
                Some(d) => Some(d@),
                None => None,
            },
            buffer: self.buffer@,
            timer: self.timer@,
        }
    }
}

impl SessionWord {
    #[verifier::type_invariant]
    spec fn inv(self) -> bool {
        self@.wf()
    }

    /// A word that nobody has touched, taken from a corpus record.
    pub fn new(record: &WordData) -> (word: SessionWord)
        ensures
            word@ == word_of(*record),
    {
        let definition = match &record.definitions {
            Some(d) => Some(d.clone()),
            None => None,
        };
        SessionWord {
            text: chars_of(record.word.as_str()),
            definition,
            buffer: Vec::new(),
            timer: Timer::new(),
        }
    }

    /// The word to type.
    pub fn text(&self) -> (text: &Vec<char>)
        ensures
            text@ == self@.text,
    {
        &self.text
    }

    /// What the word means, where the corpus says so.
    pub fn definition(&self) -> (definition: Option<&String>)
        ensures
            match definition {
                Some(d) => self@.definition == Some(d@),
                None => self@.definition is None,
            },
    {
        self.definition.as_ref()
    }

    /// What has been typed for the word.
    pub fn buffer(&self) -> (buffer: &Vec<char>)
        ensures
            buffer@ == self@.buffer,
    {
        &self.buffer
    }

    /// The time taken over the word.
    pub fn timer(&self) -> (timer: &Timer)
        ensures
            timer@ == self@.timer,
            self@.wf(),
    {
        proof {
            use_type_invariant(self);
        }
        &self.timer
    }

    /// A word without text, to stand in while another is taken apart.
    fn blank() -> (word: SessionWord)
        ensures
            word@ == WordState::fresh(Seq::empty(), None),
    {
        SessionWord { text: Vec::new(), definition: None, buffer: Vec::new(), timer: Timer::new() }
    }

    /// Takes a typed character at `now`.
    pub fn type_char(&mut self, c: char, now: u64)
        ensures
            final(self)@ == old(self)@.type_char(c, now as int),
            final(self)@.wf(),
    {
        proof {
            use_type_invariant(&*self);
        }
        let mut taken = SessionWord::blank();
        core::mem::swap(self, &mut taken);
        let SessionWord { text, definition, mut buffer, mut timer } = taken;
        buffer.push(c);
        timer.start(now);
        *self = SessionWord { text, definition, buffer, timer };
    }

    /// Takes a backspace at `now`.
    pub fn backspace(&mut self, now: u64)
        ensures
            final(self)@ == old(self)@.backspace(now as int),
            final(self)@.wf(),
    {
        proof {
            use_type_invariant(&*self);
        }
        let mut taken = SessionWord::blank();
        core::mem::swap(self, &mut taken);
        let SessionWord { text, definition, mut buffer, mut timer } = taken;
        if buffer.len() == 1 {
            timer.stop(now);
            buffer.pop();
        } else if buffer.len() > 1 {
            timer.observe(now);
            buffer.pop();
        }
        *self = SessionWord { text, definition, buffer, timer };
    }

    /// Leaves the word at `now`.
    pub fn finish(&mut self, now: u64)
        ensures
            final(self)@ == old(self)@.finish(now as int),
            final(self)@.wf(),
    {
        proof {
            use_type_invariant(&*self);
        }
        self.timer.stop(now);
    }
}

/// Every step of a word leaves a well-formed word.
pub proof fn lemma_word_steps(word: WordState, c: char, now: int)
    requires
        word.wf(),
    ensures
        word.type_char(c, now).wf(),
        word.backspace(now).wf(),
        word.finish(now).wf(),
{
}

/// What can happen to the word under the cursor.
pub enum Keystroke {
    /// A character was typed.
    Char(char),
    /// The last typed character was taken back.
    Backspace,
    /// The word was left.
    Advance,
}

impl WordState {
    /// The word after `key` at `now`.
    pub open spec fn step(self, key: Keystroke, now: int) -> WordState {
        match key {
            Keystroke::Char(c) => self.type_char(c, now),
            Keystroke::Backspace => self.backspace(now),
            Keystroke::Advance => self.finish(now),
        }
    }

    /// The word after a sequence of keystrokes, each with its clock reading.
    pub open spec fn run(self, keys: Seq<(Keystroke, int)>) -> WordState
        decreases keys.len(),
    {
        if keys.len() == 0 {
            self
        } else {
            self.run(keys.drop_last()).step(keys.last().0, keys.last().1)
        }
    }

    /// The time that passes inside bursts while a sequence of keystrokes
    /// comes in: for every keystroke that finds a burst running, the time
    /// since the reading before it.
    pub open spec fn time_in_bursts(self, keys: Seq<(Keystroke, int)>) -> int
        decreases keys.len(),
    {
        if keys.len() == 0 {
            0
        } else {
            self.time_in_bursts(keys.drop_last()) + self.run(keys.drop_last()).timer.busy_until(
                keys.last().1,
            )
        }
    }
}

/// Over any sequence of keystrokes the accumulated duration of a word never
/// goes down, and the time spent grows by exactly the time that passed inside
/// bursts. For a word that ends idle the accumulated duration therefore is
/// the total length of its bursts: nothing is counted twice and nothing is
/// lost.
pub proof fn lemma_accumulated_is_time_in_bursts(word: WordState, keys: Seq<(Keystroke, int)>)
    requires
        word.wf(),
    ensures
        word.run(keys).wf(),
        word.run(keys).timer.accumulated >= word.timer.accumulated,
        word.run(keys).timer.spent() == word.timer.spent() + word.time_in_bursts(keys),
        !word.run(keys).timer.is_active() ==> word.run(keys).timer.accumulated
            == word.timer.spent() + word.time_in_bursts(keys),
    decreases keys.len(),
{
    if keys.len() > 0 {
        let before = word.run(keys.drop_last());
        let now = keys.last().1;
        lemma_accumulated_is_time_in_bursts(word, keys.drop_last());
        lemma_timer_spent(before.timer, now);
        lemma_timer_steps(before.timer, now);
    }
}

/// Backspacing out of a word ends its burst once: the time since the burst
/// began is added when the last character goes, and a backspace on the empty
/// buffer adds nothing more.
pub proof fn lemma_backspace_out(word: WordState, first: int, second: int, third: int)
    requires
        word.wf(),
        word.buffer.len() == 2,
        word.timer.burst_start is Some,
        word.timer.clock <= first <= second <= third,
    ensures
        word.backspace(first).timer.accumulated == word.timer.accumulated,
        word.backspace(first).backspace(second).timer.accumulated == word.timer.accumulated + (
        second - word.timer.burst_start->0),
        word.backspace(first).backspace(second).backspace(third).timer.accumulated
            == word.backspace(first).backspace(second).timer.accumulated,
{
}

} // verus!
