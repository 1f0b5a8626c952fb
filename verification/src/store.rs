//! Actions and the stores that react to them.

use crate::corpus::{records_of, WordData};
use crate::selector::{is_sample, select, SelectionCriteria};
use crate::session::{Session, SessionState};
use std::collections::VecDeque;
use vstd::prelude::*;

verus! {

/// The screens of the program.
#[derive(Debug, Clone, Copy, PartialEq, Eq, Structural)]
pub enum Page {
    /// The words are being typed.
    Game,
    /// The session is over and its outcome is shown.
    Results,
}

/// What can be asked of the stores.
#[derive(Debug, Clone, Copy, PartialEq, Eq, Structural)]
pub enum Action {
    /// A character was typed.
    CharTyped(char),
    /// The backspace key was pressed.
    BackspacePressed,
    /// Another page is to be shown.
    NavigateTo(Page),
    /// A new session is to be drawn from the corpus.
    ApplySelection(SelectionCriteria),
    /// The program is to end.
    RequestExit,
}

/// What a session store emits when an action has brought its session to
/// completion.
pub open spec fn completion(before: SessionState, after: SessionState) -> Seq<Action> {
    if !before.is_complete() && after.is_complete() {
        seq![Action::NavigateTo(Page::Results)]
    } else {
        Seq::empty()
    }
}

/// What a session store emits when it has drawn a new session: a session
/// without words is over at once.
pub open spec fn opening(session: SessionState) -> Seq<Action> {
    if session.is_complete() {
        seq![Action::NavigateTo(Page::Results)]
    } else {
        Seq::empty()
    }
}

/// The mathematical model of a [`Store`].
pub enum StoreState {
    /// The page shown.
    Page(Page),
    /// Whether the program has been asked to end.
    ExitFlag(bool),
    /// The running session, and the corpus that sessions are drawn from.
    Session { corpus: Seq<WordData>, session: SessionState },
}

impl StoreState {
    /// Whether `sample` can be what this store draws on `action`. Only a
    /// session store draws, and only when a selection is applied: then the
    /// sample holds the candidates that the criteria leave of its corpus, in
    /// any order.
    pub open spec fn draws(self, action: Action, sample: Seq<WordData>) -> bool {
        match (self, action) {
            (StoreState::Session { corpus, session }, Action::ApplySelection(criteria)) => {
                is_sample(sample, criteria, corpus)
            },
            _ => true,
        }
    }

    /// The store after `action` at `now`, and the actions it emits, where
    /// `sample` is what it has drawn if the action made it draw.
    pub open spec fn step(self, action: Action, now: int, sample: Seq<WordData>) -> (
        StoreState,
        Seq<Action>,
    ) {
        match self {
            StoreState::Page(page) => match action {
                Action::NavigateTo(target) => (StoreState::Page(target), Seq::empty()),
                _ => (self, Seq::empty()),
            },
            StoreState::ExitFlag(flag) => match action {
                Action::RequestExit => (StoreState::ExitFlag(true), Seq::empty()),
                _ => (self, Seq::empty()),
            },
            StoreState::Session { corpus, session } => match action {
                Action::CharTyped(c) => {
                    let next = session.type_char(c, now);
                    (StoreState::Session { corpus, session: next }, completion(session, next))
                },
                Action::BackspacePressed => {
                    let next = session.backspace(now);
                    (StoreState::Session { corpus, session: next }, completion(session, next))
                },
                Action::ApplySelection(_) => {
                    let next = SessionState::fresh(sample, now);
                    (StoreState::Session { corpus, session: next }, opening(next))
                },
                _ => (self, Seq::empty()),
            },
        }
    }

    /// Whether `other` is a store of the same kind, over the same corpus if
    /// it is a session store.
    pub open spec fn akin(self, other: StoreState) -> bool {
        match (self, other) {
            (StoreState::Page(_), StoreState::Page(_)) => true,
            (StoreState::ExitFlag(_), StoreState::ExitFlag(_)) => true,
            (
                StoreState::Session { corpus: mine, session: _ },
                StoreState::Session { corpus: theirs, session: _ },
            ) => mine == theirs,
            _ => false,
        }
    }

    /// The store after the first `count` of `actions`, taken one after the
    /// other, where `picks` holds what it has drawn on each.
    pub open spec fn run(
        self,
        actions: Seq<Action>,
        now: int,
        picks: Seq<Seq<WordData>>,
        count: int,
    ) -> StoreState
        decreases count,
    {
        if count <= 0 {
            self
        } else {
            self.run(actions, now, picks, count - 1).step(
                actions[count - 1],
                now,
                picks[count - 1],
            ).0
        }
    }
}

/// Holds the page shown.
#[derive(Debug)]
pub struct PageStore {
    page: Page,
}

impl PageStore {
    /// A store that shows `page`.
    pub fn new(page: Page) -> (store: PageStore)
        ensures
            store.page() == page,
    {
        PageStore { page }
    }

    /// The page shown.
    #[verifier::when_used_as_spec(spec_page)]
    pub fn page(&self) -> (page: Page)
        ensures
            page == self.page(),
    {
        self.page
    }

    /// The page shown.
    pub closed spec fn spec_page(&self) -> Page {
        self.page
    }

    /// Goes to the page that a navigation names; any other action leaves the
    /// page as it is.
    pub fn update(&mut self, action: &Action)
        ensures
            final(self).page() == match *action {
                Action::NavigateTo(target) => target,
                _ => old(self).page(),
            },
    {
        if let Action::NavigateTo(target) = action {
            self.page = *target;
        }
    }
}

/// Holds whether the program has been asked to end.
#[derive(Debug)]
pub struct ExitFlagStore {
    flag: bool,
}

impl ExitFlagStore {
    /// A store whose flag is down.
    pub fn new() -> (store: ExitFlagStore)
        ensures
            !store.is_set(),
    {
        ExitFlagStore { flag: false }
    }

    /// Whether the program has been asked to end.
    #[verifier::when_used_as_spec(spec_is_set)]
    pub fn is_set(&self) -> (flag: bool)
        ensures
            flag == self.is_set(),
    {
        self.flag
    }

    /// Whether the program has been asked to end.
    pub closed spec fn spec_is_set(&self) -> bool {
        self.flag
    }

    /// Raises the flag on a request to exit. Nothing lowers it again.
    pub fn update(&mut self, action: &Action)
        ensures
            final(self).is_set() == (old(self).is_set() || *action == Action::RequestExit),
    {
        match action {
            Action::RequestExit => {
                self.flag = true;
            },
            _ => (),
        }
    }
}

/// Holds the running session and the corpus that sessions are drawn from.
#[derive(Debug)]
pub struct SessionStore {
    corpus: Vec<WordData>,
    session: Session,
}

impl SessionStore {
    /// A store over `corpus` whose session has no words yet.
    pub fn new(corpus: Vec<WordData>) -> (store: SessionStore)
        ensures
            store.corpus_view() == corpus@,
            store.session_view() == SessionState::fresh(Seq::empty(), 0),
    {
        SessionStore { corpus, session: Session::empty() }
    }

    /// The corpus that sessions are drawn from.
    pub closed spec fn corpus_view(&self) -> Seq<WordData> {
        self.corpus@
    }

    /// The running session.
    pub closed spec fn session_view(&self) -> SessionState {
        self.session@
    }

    /// The corpus that sessions are drawn from.
    pub fn corpus(&self) -> (corpus: &Vec<WordData>)
        ensures
            corpus@ == self.corpus_view(),
    {
        &self.corpus
    }

    /// The running session.
    pub fn session(&self) -> (session: &Session)
        ensures
            session@ == self.session_view(),
    {
        &self.session
    }

    /// Hands typed characters and backspaces to the session and draws a new
    /// session when a selection is applied. An action that brings the
    /// session to completion makes the store emit a navigation to the
    /// results page into `out`. Any other action is ignored.
    pub fn update(&mut self, action: &Action, now: u64, out: &mut VecDeque<Action>)
        ensures
            final(self).corpus_view() == old(self).corpus_view(),
            exists|sample: Seq<WordData>| #[trigger]
                old(self)@.draws(*action, sample) && final(self)@ == old(self)@.step(
                    *action,
                    now as int,
                    sample,
                ).0 && final(out)@ == old(out)@ + old(self)@.step(*action, now as int, sample).1,
    {
        let ghost before = self@;
        let ghost queued = out@;
        match action {
            Action::CharTyped(c) => {
                let was_complete = self.session.is_complete();
                self.session.type_char(*c, now);
                if !was_complete && self.session.is_complete() {
                    out.push_back(Action::NavigateTo(Page::Results));
                }
                assert(before.draws(*action, Seq::empty()));
                assert(out@ =~= queued + before.step(*action, now as int, Seq::empty()).1);
            },
            Action::BackspacePressed => {
                let was_complete = self.session.is_complete();
                self.session.backspace(now);
                if !was_complete && self.session.is_complete() {
                    out.push_back(Action::NavigateTo(Page::Results));
                }
                assert(before.draws(*action, Seq::empty()));
                assert(out@ =~= queued + before.step(*action, now as int, Seq::empty()).1);
            },
            Action::ApplySelection(criteria) => {
                let sample = select(criteria, &self.corpus);
                let session = Session::new(&sample, now);
                if session.is_complete() {
                    out.push_back(Action::NavigateTo(Page::Results));
                }
                self.session = session;
                assert(before.draws(*action, records_of(sample@)));
                assert(out@ =~= queued + before.step(*action, now as int, records_of(sample@)).1);
            },
            _ => {
                assert(before.draws(*action, Seq::empty()));
                assert(out@ =~= queued + before.step(*action, now as int, Seq::empty()).1);
            },
        }
    }
}

impl View for SessionStore {
    type V = StoreState;

    open spec fn view(&self) -> StoreState {
        StoreState::Session { corpus: self.corpus_view(), session: self.session_view() }
    }
}

/// A unit of state that reacts to actions. The kinds of store are fixed.
#[derive(Debug)]
pub enum Store {
    Page(PageStore),
    ExitFlag(ExitFlagStore),
    Session(SessionStore),
}

impl View for Store {
    type V = StoreState;

    open spec fn view(&self) -> StoreState {
        match *self {
            Store::Page(store) => StoreState::Page(store.page()),
            Store::ExitFlag(store) => StoreState::ExitFlag(store.is_set()),
            Store::Session(store) => store@,
        }
    }
}

impl Store {
    /// Takes one action at `now`. What the store emits goes to the end of
    /// `out` and nowhere else.
    pub fn update(&mut self, action: &Action, now: u64, out: &mut VecDeque<Action>)
        ensures
            exists|sample: Seq<WordData>| #[trigger]
                old(self)@.draws(*action, sample) && final(self)@ == old(self)@.step(
                    *action,
                    now as int,
                    sample,
                ).0 && final(out)@ == old(out)@ + old(self)@.step(*action, now as int, sample).1,
    {
        let ghost before = self@;
        let ghost queued = out@;
        match self {
            Store::Page(store) => {
                store.update(action);
                assert(before.draws(*action, Seq::empty()));
                assert(out@ =~= queued + before.step(*action, now as int, Seq::empty()).1);
            },
            Store::ExitFlag(store) => {
                store.update(action);
                assert(before.draws(*action, Seq::empty()));
                assert(out@ =~= queued + before.step(*action, now as int, Seq::empty()).1);
            },
            Store::Session(store) => {
                store.update(action, now, out);
            },
        }
    }
}

} // verus!
