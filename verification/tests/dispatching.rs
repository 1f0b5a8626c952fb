use std::collections::VecDeque;
use typing_engine::corpus::{UsageCategory, WordData};
use typing_engine::dispatch::Dispatcher;
use typing_engine::input::{action_of, InputEvent};
use typing_engine::selector::SelectionCriteria;
use typing_engine::session::Session;
use typing_engine::store::{Action, ExitFlagStore, Page, PageStore, SessionStore, Store};

fn chars(text: &str) -> Vec<char> {
    text.chars().collect()
}

fn record(word: &str, tier: UsageCategory) -> WordData {
    WordData {
        id: word.to_string(),
        usage_category: tier,
        word: word.to_string(),
        deprecated: false,
        ku_data: None,
        pu_verbatim: None,
        commentary: None,
        definitions: Some(format!("what {} means", word)),
    }
}

fn core_only(sample_size: usize) -> SelectionCriteria {
    SelectionCriteria {
        in_use: true,
        deprecated: false,
        core_tier: true,
        common_tier: false,
        uncommon_tier: false,
        obscure_tier: false,
        sandbox_tier: false,
        ku: true,
        pu: true,
        commentary: true,
        definitions: true,
        sample_size,
    }
}

fn page_of(dispatcher: &Dispatcher, handle: usize) -> Page {
    match dispatcher.store(handle) {
        Some(Store::Page(store)) => store.page(),
        _ => panic!("no page store behind the handle"),
    }
}

fn exit_of(dispatcher: &Dispatcher, handle: usize) -> bool {
    match dispatcher.store(handle) {
        Some(Store::ExitFlag(store)) => store.is_set(),
        _ => panic!("no exit flag behind the handle"),
    }
}

fn session_of(dispatcher: &Dispatcher, handle: usize) -> &Session {
    match dispatcher.store(handle) {
        Some(Store::Session(store)) => store.session(),
        _ => panic!("no session store behind the handle"),
    }
}

/// A dispatcher with an exit flag, a page store on the game page and a
/// session store over `cat` (core) and `dog` (common).
fn game() -> (Dispatcher, usize, usize, usize) {
    let mut dispatcher = Dispatcher::new();
    let exit = dispatcher.register(Store::ExitFlag(ExitFlagStore::new()));
    let page = dispatcher.register(Store::Page(PageStore::new(Page::Game)));
    let corpus = vec![record("cat", UsageCategory::Core), record("dog", UsageCategory::Common)];
    let session = dispatcher.register(Store::Session(SessionStore::new(corpus)));
    (dispatcher, exit, page, session)
}

#[test]
fn new_dispatcher_has_nothing() {
    let dispatcher = Dispatcher::new();
    assert_eq!(dispatcher.store_count(), 0);
    assert_eq!(dispatcher.pending(), 0);
    assert!(dispatcher.store(0).is_none());
}

#[test]
fn register_hands_out_handles_in_order() {
    let (dispatcher, exit, page, session) = game();
    assert_eq!((exit, page, session), (0, 1, 2));
    assert_eq!(dispatcher.store_count(), 3);
    assert!(matches!(dispatcher.store(exit), Some(Store::ExitFlag(_))));
    assert!(matches!(dispatcher.store(page), Some(Store::Page(_))));
    assert!(matches!(dispatcher.store(session), Some(Store::Session(_))));
    assert!(dispatcher.store(3).is_none());
}

#[test]
fn action_waits_in_the_queue_until_the_tick() {
    let (mut dispatcher, exit, page, _) = game();
    dispatcher.action(Action::NavigateTo(Page::Results));
    dispatcher.action(Action::RequestExit);
    assert_eq!(dispatcher.pending(), 2);
    assert_eq!(page_of(&dispatcher, page), Page::Game);
    assert!(!exit_of(&dispatcher, exit));
    dispatcher.update(0);
    assert_eq!(dispatcher.pending(), 0);
    assert_eq!(page_of(&dispatcher, page), Page::Results);
    assert!(exit_of(&dispatcher, exit));
}

#[test]
fn tick_on_an_empty_queue_changes_nothing() {
    let (mut dispatcher, exit, page, session) = game();
    dispatcher.update(10);
    dispatcher.update(20);
    assert_eq!(dispatcher.pending(), 0);
    assert_eq!(page_of(&dispatcher, page), Page::Game);
    assert!(!exit_of(&dispatcher, exit));
    assert_eq!(session_of(&dispatcher, session).len(), 0);
}

#[test]
fn page_store_follows_the_last_navigation() {
    let mut store = PageStore::new(Page::Game);
    store.update(&Action::CharTyped('x'));
    store.update(&Action::RequestExit);
    assert_eq!(store.page(), Page::Game);
    store.update(&Action::NavigateTo(Page::Results));
    assert_eq!(store.page(), Page::Results);
    store.update(&Action::NavigateTo(Page::Game));
    assert_eq!(store.page(), Page::Game);
}

#[test]
fn exit_flag_goes_up_and_stays_up() {
    let mut store = ExitFlagStore::new();
    assert!(!store.is_set());
    store.update(&Action::BackspacePressed);
    store.update(&Action::NavigateTo(Page::Results));
    assert!(!store.is_set());
    store.update(&Action::RequestExit);
    assert!(store.is_set());
    store.update(&Action::CharTyped('q'));
    store.update(&Action::ApplySelection(core_only(1)));
    assert!(store.is_set());
}

#[test]
fn apply_selection_builds_the_session_from_the_selector() {
    let (mut dispatcher, _, page, session) = game();
    dispatcher.action(Action::ApplySelection(core_only(5)));
    dispatcher.update(1000);
    let running = session_of(&dispatcher, session);
    assert_eq!(running.len(), 1);
    assert_eq!(running.started(), 1000);
    assert_eq!(running.cursor(), 0);
    assert_eq!(running.word(0).unwrap().text(), &chars("cat"));
    assert_eq!(running.word(0).unwrap().definition(), Some(&"what cat means".to_string()));
    assert_eq!(dispatcher.pending(), 0);
    assert_eq!(page_of(&dispatcher, page), Page::Game);
}

#[test]
fn selection_that_finds_nothing_goes_to_the_results() {
    let (mut dispatcher, _, page, session) = game();
    dispatcher.action(Action::ApplySelection(SelectionCriteria::default()));
    dispatcher.update(0);
    assert!(session_of(&dispatcher, session).is_complete());
    assert_eq!(dispatcher.pending(), 1);
    assert_eq!(page_of(&dispatcher, page), Page::Game);
    dispatcher.update(1);
    assert_eq!(page_of(&dispatcher, page), Page::Results);
}

#[test]
fn emitted_action_is_seen_in_the_next_tick_only() {
    let (mut dispatcher, _, page, session) = game();
    dispatcher.action(Action::ApplySelection(core_only(1)));
    dispatcher.update(0);
    for c in "cat ".chars() {
        dispatcher.action(Action::CharTyped(c));
    }
    // A navigation back to the game stands behind the keystroke that
    // completes the session. Were the emitted navigation to the results
    // delivered in this tick, it would come before or after this one; it
    // waits, so the page is the game page when the tick is over.
    dispatcher.action(Action::NavigateTo(Page::Game));
    dispatcher.update(10);
    assert!(session_of(&dispatcher, session).is_complete());
    assert_eq!(page_of(&dispatcher, page), Page::Game);
    assert_eq!(dispatcher.pending(), 1);
    dispatcher.update(20);
    assert_eq!(page_of(&dispatcher, page), Page::Results);
    assert_eq!(dispatcher.pending(), 0);
    dispatcher.update(30);
    assert_eq!(page_of(&dispatcher, page), Page::Results);
}

#[test]
fn page_store_registered_first_does_not_see_the_emission_either() {
    let mut dispatcher = Dispatcher::new();
    let corpus = vec![record("a", UsageCategory::Core)];
    let session = dispatcher.register(Store::Session(SessionStore::new(corpus)));
    let page = dispatcher.register(Store::Page(PageStore::new(Page::Game)));
    dispatcher.action(Action::ApplySelection(core_only(1)));
    dispatcher.action(Action::CharTyped('a'));
    dispatcher.action(Action::CharTyped(' '));
    dispatcher.update(5);
    assert!(session_of(&dispatcher, session).is_complete());
    assert_eq!(page_of(&dispatcher, page), Page::Game);
    dispatcher.update(6);
    assert_eq!(page_of(&dispatcher, page), Page::Results);
}

#[test]
fn typing_through_the_dispatcher_times_the_word() {
    let (mut dispatcher, _, _, session) = game();
    dispatcher.action(Action::ApplySelection(core_only(1)));
    dispatcher.update(0);
    dispatcher.action(Action::CharTyped('c'));
    dispatcher.update(100);
    dispatcher.action(Action::CharTyped('a'));
    dispatcher.update(180);
    dispatcher.action(Action::BackspacePressed);
    dispatcher.update(200);
    dispatcher.action(Action::BackspacePressed);
    dispatcher.update(260);
    let word = session_of(&dispatcher, session).word(0).unwrap();
    assert!(word.buffer().is_empty());
    assert_eq!(word.timer().accumulated(), 160);
    assert!(!word.timer().is_active());
}

#[test]
fn completion_is_emitted_once() {
    let (mut dispatcher, _, _, _) = game();
    dispatcher.action(Action::ApplySelection(core_only(1)));
    dispatcher.update(0);
    dispatcher.action(Action::CharTyped(' '));
    dispatcher.action(Action::CharTyped(' '));
    dispatcher.action(Action::BackspacePressed);
    dispatcher.update(1);
    assert_eq!(dispatcher.pending(), 1);
}

#[test]
fn store_puts_what_it_emits_behind_what_is_there() {
    let corpus = vec![record("a", UsageCategory::Core)];
    let mut store = Store::Session(SessionStore::new(corpus));
    let mut out = VecDeque::new();
    out.push_back(Action::RequestExit);
    store.update(&Action::ApplySelection(core_only(1)), 0, &mut out);
    store.update(&Action::CharTyped('x'), 1, &mut out);
    assert_eq!(out.len(), 1);
    store.update(&Action::CharTyped(' '), 2, &mut out);
    assert_eq!(
        out,
        VecDeque::from(vec![Action::RequestExit, Action::NavigateTo(Page::Results)])
    );
    store.update(&Action::NavigateTo(Page::Game), 3, &mut out);
    store.update(&Action::RequestExit, 4, &mut out);
    assert_eq!(out.len(), 2);
}

#[test]
fn session_store_keeps_its_corpus() {
    let corpus = vec![record("cat", UsageCategory::Core), record("dog", UsageCategory::Common)];
    let mut store = SessionStore::new(corpus);
    assert_eq!(store.corpus().len(), 2);
    assert!(store.session().is_complete());
    let mut out = VecDeque::new();
    store.update(&Action::ApplySelection(core_only(2)), 7, &mut out);
    assert_eq!(store.corpus().len(), 2);
    assert_eq!(store.session().len(), 1);
    assert!(out.is_empty());
}

#[test]
fn input_events_ask_for_their_actions() {
    assert_eq!(action_of(InputEvent::Char('x')), Some(Action::CharTyped('x')));
    assert_eq!(action_of(InputEvent::Char(' ')), Some(Action::CharTyped(' ')));
    assert_eq!(action_of(InputEvent::Backspace), Some(Action::BackspacePressed));
    assert_eq!(action_of(InputEvent::Exit), Some(Action::RequestExit));
    assert_eq!(action_of(InputEvent::Unrecognized), None);
}

#[test]
fn unrecognized_input_changes_nothing() {
    let (mut dispatcher, exit, page, session) = game();
    dispatcher.action(Action::ApplySelection(core_only(1)));
    dispatcher.update(0);
    if let Some(action) = action_of(InputEvent::Unrecognized) {
        dispatcher.action(action);
    }
    dispatcher.update(1);
    assert_eq!(dispatcher.pending(), 0);
    assert_eq!(page_of(&dispatcher, page), Page::Game);
    assert!(!exit_of(&dispatcher, exit));
    assert!(session_of(&dispatcher, session).word(0).unwrap().buffer().is_empty());
}

#[test]
fn default_dispatcher_is_a_new_one() {
    let dispatcher = Dispatcher::default();
    assert_eq!(dispatcher.store_count(), 0);
    assert_eq!(dispatcher.pending(), 0);
}
