//! A practice session: the words to type in their order, and the cursor on
//! the word being typed.

use crate::aligner::{align, aligned};
use crate::corpus::{records_of, WordData};
use crate::runs::{runs_of, Segment};
use crate::text::{append_chars, copy_chars};
use crate::tokens::{
    lemma_pieces_append, lemma_pieces_of_terminated, pieces, terminated, texts, tokens, SEPARATOR,
};
use crate::word::{lemma_word_steps, word_of, Keystroke, SessionWord, WordState};
use vstd::prelude::*;

verus! {

/// Whether typing `c` ends the current word: the separator and the line
/// break do.
pub open spec fn advances(c: char) -> bool {
    c == SEPARATOR || c == '\n'
}

/// The mathematical model of a [`Session`].
pub struct SessionState {
    /// The words to type, in order.
    pub words: Seq<WordState>,
    /// The position of the word being typed; the number of words once all
    /// are done.
    pub cursor: int,
    /// When the session began.
    pub started: int,
}

impl SessionState {
    /// The cursor stays within the words or just behind them, only the word
    /// under the cursor can be inside a burst, and no buffer holds a
    /// separator.
    pub open spec fn wf(self) -> bool {
        &&& 0 <= self.cursor <= self.words.len()
        &&& forall|k: int| 0 <= k < self.words.len() ==> (#[trigger] self.words[k]).wf()
        &&& forall|k: int|
            0 <= k < self.words.len() && k != self.cursor ==> !(
            #[trigger] self.words[k]).timer.is_active()
        &&& forall|k: int|
            0 <= k < self.words.len() ==> !(#[trigger] self.words[k]).buffer.contains(SEPARATOR)
    }

    /// A session that begins at `now` with untouched words for `records`.
    pub open spec fn fresh(records: Seq<WordData>, now: int) -> SessionState {
        SessionState {
            words: Seq::new(records.len(), |k: int| word_of(records[k])),
            cursor: 0,
            started: now,
        }
    }

    /// The words to type: the target tokens.
    pub open spec fn targets(self) -> Seq<Seq<char>> {
        Seq::new(self.words.len(), |k: int| self.words[k].text)
    }

    /// What has been typed for each word.
    pub open spec fn buffers(self) -> Seq<Seq<char>> {
        Seq::new(self.words.len(), |k: int| self.words[k].buffer)
    }

    /// All that has been typed, as one text: the buffer of every word that
    /// was left, each with a separator behind it, then the buffer of the
    /// current word.
    pub open spec fn input_text(self) -> Seq<char> {
        terminated(self.buffers(), self.cursor) + if self.is_complete() {
            Seq::empty()
        } else {
            self.words[self.cursor].buffer
        }
    }

    /// The buffers that the input text holds as tokens: those of the words
    /// that were left, and that of the current word once something is typed
    /// for it.
    pub open spec fn typed_tokens(self) -> Seq<Seq<char>> {
        if self.is_complete() || self.words[self.cursor].buffer.len() == 0 {
            self.buffers().take(self.cursor)
        } else {
            self.buffers().take(self.cursor + 1)
        }
    }

    /// Whether every word has been left behind.
    pub open spec fn is_complete(self) -> bool {
        self.cursor == self.words.len()
    }

    /// The session after the current word was left at `now`: its burst ends
    /// and the cursor moves on, whatever the buffer holds. A complete session
    /// stays as it is.
    pub open spec fn advance(self, now: int) -> SessionState {
        if self.is_complete() {
            self
        } else {
            SessionState {
                words: self.words.update(self.cursor, self.words[self.cursor].finish(now)),
                cursor: self.cursor + 1,
                ..self
            }
        }
    }

    /// The session after `c` was typed at `now`: a character that ends a word
    /// advances, any other goes to the current word. A complete session stays
    /// as it is.
    pub open spec fn type_char(self, c: char, now: int) -> SessionState {
        if self.is_complete() {
            self
        } else if advances(c) {
            self.advance(now)
        } else {
            SessionState {
                words: self.words.update(self.cursor, self.words[self.cursor].type_char(c, now)),
                ..self
            }
        }
    }

    /// The keystroke that typing `c` is to the word under the cursor.
    pub open spec fn keystroke_of(c: char) -> Keystroke {
        if advances(c) {
            Keystroke::Advance
        } else {
            Keystroke::Char(c)
        }
    }

    /// The session after a backspace at `now`: the current word loses its
    /// last typed character; where it has none, the cursor goes back one
    /// word, unless it stands on the first. A complete session stays as it is.
    pub open spec fn backspace(self, now: int) -> SessionState {
        if self.is_complete() {
            self
        } else if self.words[self.cursor].buffer.len() > 0 {
            SessionState {
                words: self.words.update(self.cursor, self.words[self.cursor].backspace(now)),
                ..self
            }
        } else if self.cursor > 0 {
            SessionState { cursor: self.cursor - 1, ..self }
        } else {
            self
        }
    }
}

/// A step of a session is one keystroke to the word under the cursor and
/// nothing to any other word. So no step takes anything from the accumulated
/// duration of any word, nor changes what there is to type.
pub proof fn lemma_session_keystrokes(session: SessionState, c: char, now: int, k: int)
    requires
        session.wf(),
        0 <= k < session.words.len(),
    ensures
        session.type_char(c, now).words.len() == session.words.len(),
        session.backspace(now).words.len() == session.words.len(),
        session.advance(now).words.len() == session.words.len(),
        session.type_char(c, now).words[k] == if k == session.cursor {
            session.words[k].step(SessionState::keystroke_of(c), now)
        } else {
            session.words[k]
        },
        session.backspace(now).words[k] == if k == session.cursor {
            session.words[k].step(Keystroke::Backspace, now)
        } else {
            session.words[k]
        },
        session.advance(now).words[k] == if k == session.cursor {
            session.words[k].step(Keystroke::Advance, now)
        } else {
            session.words[k]
        },
        session.type_char(c, now).words[k].timer.accumulated >= session.words[k].timer.accumulated,
        session.backspace(now).words[k].timer.accumulated >= session.words[k].timer.accumulated,
        session.advance(now).words[k].timer.accumulated >= session.words[k].timer.accumulated,
        session.type_char(c, now).words[k].text == session.words[k].text,
        session.backspace(now).words[k].text == session.words[k].text,
        session.advance(now).words[k].text == session.words[k].text,
{
}

/// Every step of a session leaves a well-formed session.
pub proof fn lemma_session_steps(session: SessionState, c: char, now: int)
    requires
        session.wf(),
    ensures
        session.advance(now).wf(),
        session.type_char(c, now).wf(),
        session.backspace(now).wf(),
{
    if !session.is_complete() {
        let at = session.cursor;
        let word = session.words[at];
        lemma_word_steps(word, c, now);
        let typed = session.type_char(c, now);
        if !advances(c) {
            let grown = word.buffer.push(c);
            assert forall|j: int| 0 <= j < grown.len() implies grown[j] != SEPARATOR by {
                if j < grown.len() - 1 {
                    assert(word.buffer.contains(grown[j]));
                }
            }
            assert forall|k: int| 0 <= k < typed.words.len() implies !(
            #[trigger] typed.words[k]).buffer.contains(SEPARATOR) by {
                if k != at {
                    assert(typed.words[k] == session.words[k]);
                }
            }
        }
        let erased = session.backspace(now);
        if word.buffer.len() > 0 {
            let shrunk = word.buffer.drop_last();
            assert forall|j: int| 0 <= j < shrunk.len() implies shrunk[j] != SEPARATOR by {
                assert(word.buffer.contains(shrunk[j]));
            }
            assert forall|k: int| 0 <= k < erased.words.len() implies !(
            #[trigger] erased.words[k]).buffer.contains(SEPARATOR) by {
                if k != at {
                    assert(erased.words[k] == session.words[k]);
                }
            }
        }
    }
}

/// Cutting the input text of a session into tokens gives back the buffers,
/// word by word: what was typed for one word is never set against another.
pub proof fn lemma_input_tokens(session: SessionState)
    requires
        session.wf(),
    ensures
        tokens(session.input_text()) == session.typed_tokens(),
{
    let buffers = session.buffers();
    let head = terminated(buffers, session.cursor);
    let tail = if session.is_complete() {
        Seq::empty()
    } else {
        session.words[session.cursor].buffer
    };
    assert forall|k: int| 0 <= k < session.cursor implies !(#[trigger] buffers[k]).contains(
        SEPARATOR,
    ) by {
        assert(buffers[k] == session.words[k].buffer);
    }
    lemma_pieces_of_terminated(buffers, session.cursor);
    lemma_pieces_append(head, tail);
    let cut = pieces(head + tail);
    assert(pieces(head).drop_last() =~= buffers.take(session.cursor));
    assert(Seq::<char>::empty() + tail =~= tail);
    assert(cut == buffers.take(session.cursor).push(tail));
    if tail.len() == 0 {
        assert(cut.drop_last() =~= buffers.take(session.cursor));
    } else {
        assert(cut =~= buffers.take(session.cursor + 1));
    }
}

/// The models of a sequence of words.
pub open spec fn states_of(words: Seq<SessionWord>) -> Seq<WordState> {
    Seq::new(words.len(), |k: int| words[k]@)
}

/// An ordered run of words to type, with a cursor on the word being typed.
#[derive(Debug)]
pub struct Session {
    words: Vec<SessionWord>,
    cursor: usize,
    started: u64,
}

impl View for Session {
    type V = SessionState;

    closed spec fn view(&self) -> SessionState {
        SessionState {
            words: states_of(self.words@),
            cursor: self.cursor as int,
            started: self.started as int,
        }
    }
}

impl Session {
    #[verifier::type_invariant]
    spec fn inv(self) -> bool {
        self@.wf()
    }

    /// A session without words. It is complete from the start.
    pub fn empty() -> (session: Session)
        ensures
            session@ == SessionState::fresh(Seq::empty(), 0),
            session@.wf(),
    {
        let session = Session { words: Vec::new(), cursor: 0, started: 0 };
        assert(session@.words =~= SessionState::fresh(Seq::empty(), 0).words);
        session
    }

    /// A session that begins at `now` over the words of `sample`, in their
    /// order, with the cursor on the first.
    pub fn new(sample: &Vec<&WordData>, now: u64) -> (session: Session)
        ensures
            session@ == SessionState::fresh(records_of(sample@), now as int),
            session@.wf(),
    {
        let mut words: Vec<SessionWord> = Vec::new();
        let mut k: usize = 0;
        while k < sample.len()
            invariant
                k <= sample.len(),
                words.len() == k,
                forall|j: int| 0 <= j < k ==> (#[trigger] words[j])@ == word_of(*sample[j]),
            decreases sample.len() - k,
        {
            words.push(SessionWord::new(sample[k]));
            k += 1;
        }
        let session = Session { words, cursor: 0, started: now };
        assert(session@.words =~= SessionState::fresh(records_of(sample@), now as int).words);
        session
    }

    /// Whether every word has been left behind.
    pub fn is_complete(&self) -> (complete: bool)
        ensures
            complete == self@.is_complete(),
    {
        self.cursor == self.words.len()
    }

    /// The position of the word being typed.
    pub fn cursor(&self) -> (cursor: usize)
        ensures
            cursor == self@.cursor,
            self@.wf(),
    {
        proof {
            use_type_invariant(self);
        }
        self.cursor
    }

    /// The number of words.
    pub fn len(&self) -> (len: usize)
        ensures
            len == self@.words.len(),
    {
        self.words.len()
    }

    /// When the session began.
    pub fn started(&self) -> (started: u64)
        ensures
            started == self@.started,
    {
        self.started
    }

    /// The word at `index`, if there is one.
    pub fn word(&self, index: usize) -> (word: Option<&SessionWord>)
        ensures
            match word {
                Some(w) => index < self@.words.len() && w@ == self@.words[index as int],
                None => index >= self@.words.len(),
            },
    {
        if index < self.words.len() {
            Some(&self.words[index])
        } else {
            None
        }
    }

    /// The word under the cursor, unless the session is complete.
    pub fn current(&self) -> (word: Option<&SessionWord>)
        ensures
            match word {
                Some(w) => !self@.is_complete() && w@ == self@.words[self@.cursor],
                None => self@.is_complete(),
            },
    {
        proof {
            use_type_invariant(self);
        }
        self.word(self.cursor)
    }

    /// The words to type, as target tokens for the aligner.
    pub fn target_tokens(&self) -> (targets: Vec<Vec<char>>)
        ensures
            texts(targets@) == self@.targets(),
    {
        let mut targets: Vec<Vec<char>> = Vec::new();
        let mut k: usize = 0;
        while k < self.words.len()
            invariant
                k <= self.words.len(),
                targets.len() == k,
                forall|j: int| 0 <= j < k ==> (#[trigger] targets[j])@ == self.words[j]@.text,
            decreases self.words.len() - k,
        {
            targets.push(copy_chars(self.words[k].text()));
            k += 1;
        }
        assert(texts(targets@) =~= self@.targets());
        targets
    }

    /// All that has been typed, as one text for the aligner.
    pub fn input_text(&self) -> (text: Vec<char>)
        ensures
            text@ == self@.input_text(),
    {
        proof {
            use_type_invariant(self);
        }
        let ghost buffers = self@.buffers();
        let mut text: Vec<char> = Vec::new();
        let mut k: usize = 0;
        assert(text@ =~= terminated(buffers, 0));
        while k < self.cursor
            invariant
                k <= self.cursor <= self.words.len(),
                buffers == self@.buffers(),
                text@ == terminated(buffers, k as int),
            decreases self.cursor - k,
        {
            let ghost before = text@;
            append_chars(&mut text, self.words[k].buffer());
            text.push(SEPARATOR);
            assert(buffers[k as int] == self.words[k as int]@.buffer);
            assert(text@ =~= before + buffers[k as int].push(SEPARATOR));
            k += 1;
        }
        if self.cursor < self.words.len() {
            append_chars(&mut text, self.words[self.cursor].buffer());
        } else {
            assert(text@ + Seq::<char>::empty() =~= text@);
        }
        text
    }

    /// What has been typed set against what is to be typed, classified for
    /// display.
    pub fn segments(&self) -> (segments: Vec<Segment>)
        ensures
            runs_of(segments@) == aligned(self@.targets(), self@.typed_tokens()),
    {
        proof {
            use_type_invariant(self);
            lemma_input_tokens(self@);
        }
        let targets = self.target_tokens();
        let text = self.input_text();
        align(&targets, &text)
    }

    /// A session without words, to stand in while another is taken apart.
    fn blank() -> (session: Session)
        ensures
            session@.words.len() == 0,
    {
        Session { words: Vec::new(), cursor: 0, started: 0 }
    }

    /// Leaves the current word at `now` and moves the cursor on.
    pub fn advance(&mut self, now: u64)
        ensures
            final(self)@ == old(self)@.advance(now as int),
            final(self)@.wf(),
    {
        proof {
            use_type_invariant(&*self);
            lemma_session_steps(self@, SEPARATOR, now as int);
        }
        if self.cursor < self.words.len() {
            let ghost after = self@.advance(now as int);
            let mut taken = Session::blank();
            core::mem::swap(self, &mut taken);
            let Session { mut words, cursor, started } = taken;
            words[cursor].finish(now);
            assert(states_of(words@) =~= after.words);
            *self = Session { words, cursor: cursor + 1, started };
        }
    }

    /// Takes a typed character at `now`.
    pub fn type_char(&mut self, c: char, now: u64)
        ensures
            final(self)@ == old(self)@.type_char(c, now as int),
            final(self)@.wf(),
    {
        proof {
            use_type_invariant(&*self);
            lemma_session_steps(self@, c, now as int);
        }
        if self.cursor < self.words.len() {
            if c == SEPARATOR || c == '\n' {
                self.advance(now);
            } else {
                let ghost after = self@.type_char(c, now as int);
                let mut taken = Session::blank();
                core::mem::swap(self, &mut taken);
                let Session { mut words, cursor, started } = taken;
                words[cursor].type_char(c, now);
                assert(states_of(words@) =~= after.words);
                *self = Session { words, cursor, started };
            }
        }
    }

    /// Takes a backspace at `now`.
    pub fn backspace(&mut self, now: u64)
        ensures
            final(self)@ == old(self)@.backspace(now as int),
            final(self)@.wf(),
    {
        proof {
            use_type_invariant(&*self);
            lemma_session_steps(self@, SEPARATOR, now as int);
        }
        if self.cursor < self.words.len() {
            let ghost after = self@.backspace(now as int);
            let mut taken = Session::blank();
            core::mem::swap(self, &mut taken);
            let Session { mut words, cursor, started } = taken;
            let mut at: usize = cursor;
            if words[cursor].buffer().len() > 0 {
                words[cursor].backspace(now);
            } else if cursor > 0 {
                at = cursor - 1;
            }
            assert(states_of(words@) =~= after.words);
            *self = Session { words, cursor: at, started };
        }
    }
}

} // verus!
