use typing_engine::aligner::{align, align_text, align_token, classify};
use typing_engine::display::{paint, paint_segment, Emphasis, Span, PLACEHOLDER};
use typing_engine::runs::{push_cell, Cell, Segment};
use typing_engine::text::{append_chars, chars_of, copy_chars, one_char};
use typing_engine::tokens::{split_tokens, SEPARATOR};
use typing_engine::zip::{extend, full_zip};

fn chars(text: &str) -> Vec<char> {
    text.chars().collect()
}

fn words(text: &[&str]) -> Vec<Vec<char>> {
    text.iter().map(|w| chars(w)).collect()
}

fn target_side(segments: &[Segment]) -> String {
    let mut side = String::new();
    for segment in segments {
        match segment {
            Segment::Correct(text) | Segment::NoInput(text) => side.extend(text.iter()),
            Segment::Incorrect { target, .. } => side.extend(target.iter()),
            Segment::Excess(_) => (),
        }
    }
    side
}

fn input_side(segments: &[Segment]) -> String {
    let mut side = String::new();
    for segment in segments {
        match segment {
            Segment::Correct(text) | Segment::Excess(text) => side.extend(text.iter()),
            Segment::Incorrect { input, .. } => side.extend(input.iter()),
            Segment::NoInput(_) => (),
        }
    }
    side
}

#[test]
fn extend_wraps_items_and_pads_with_none() {
    let items = vec![10u8, 20, 30];
    assert_eq!(extend(&items, 0), Some(&10));
    assert_eq!(extend(&items, 2), Some(&30));
    assert_eq!(extend(&items, 3), None);
    assert_eq!(extend(&items, usize::MAX), None);
    let nothing: Vec<u8> = Vec::new();
    assert_eq!(extend(&nothing, 0), None);
}

#[test]
fn full_zip_runs_to_the_end_of_the_longer_side() {
    let a = vec![1u8, 2, 3];
    let b = vec!['x'];
    assert_eq!(
        full_zip(&a, &b),
        vec![(Some(&1), Some(&'x')), (Some(&2), None), (Some(&3), None)]
    );
    assert_eq!(
        full_zip(&b, &a),
        vec![(Some(&'x'), Some(&1)), (None, Some(&2)), (None, Some(&3))]
    );
}

#[test]
fn full_zip_of_equal_lengths_has_no_gap() {
    let a = vec![1u8, 2];
    let b = vec![3u8, 4];
    assert_eq!(full_zip(&a, &b), vec![(Some(&1), Some(&3)), (Some(&2), Some(&4))]);
}

#[test]
fn full_zip_of_nothing_is_empty() {
    let a: Vec<u8> = Vec::new();
    let b: Vec<u8> = Vec::new();
    assert!(full_zip(&a, &b).is_empty());
}

#[test]
fn chars_of_keeps_every_character() {
    assert_eq!(chars_of("toki pona"), chars("toki pona"));
    assert_eq!(chars_of(""), chars(""));
    assert_eq!(chars_of("añ→b"), vec!['a', 'ñ', '→', 'b']);
}

#[test]
fn append_and_copy_chars() {
    let mut text = chars("ab");
    append_chars(&mut text, &chars("cd"));
    assert_eq!(text, chars("abcd"));
    append_chars(&mut text, &chars(""));
    assert_eq!(text, chars("abcd"));
    assert_eq!(copy_chars(&text), chars("abcd"));
    assert_eq!(one_char('x'), chars("x"));
}

#[test]
fn classify_tells_the_four_kinds_apart() {
    assert!(matches!(classify(Some(&'a'), Some(&'a')), Some(Cell::Correct('a'))));
    assert!(matches!(
        classify(Some(&'a'), Some(&'b')),
        Some(Cell::Incorrect { target: 'a', input: 'b' })
    ));
    assert!(matches!(classify(Some(&'a'), None), Some(Cell::NoInput('a'))));
    assert!(matches!(classify(None, Some(&'b')), Some(Cell::Excess('b'))));
    assert!(classify(None, None).is_none());
}

#[test]
fn push_cell_joins_a_run_of_its_kind_only() {
    let mut segments = Vec::new();
    push_cell(&mut segments, Cell::Correct('a'));
    push_cell(&mut segments, Cell::Correct('b'));
    assert_eq!(segments, vec![Segment::Correct(chars("ab"))]);
    push_cell(&mut segments, Cell::Excess('c'));
    push_cell(&mut segments, Cell::Correct('d'));
    assert_eq!(
        segments,
        vec![
            Segment::Correct(chars("ab")),
            Segment::Excess(chars("c")),
            Segment::Correct(chars("d")),
        ]
    );
}

#[test]
fn split_tokens_cuts_at_every_separator() {
    assert_eq!(split_tokens(&chars("cat dog")), words(&["cat", "dog"]));
    assert_eq!(split_tokens(&chars("cat")), words(&["cat"]));
}

#[test]
fn split_tokens_drops_the_empty_piece_after_a_closing_separator() {
    assert_eq!(split_tokens(&chars("cat ")), words(&["cat"]));
    assert_eq!(split_tokens(&chars("cat dog ")), words(&["cat", "dog"]));
}

#[test]
fn split_tokens_keeps_empty_tokens_inside() {
    assert_eq!(split_tokens(&chars("a  b")), words(&["a", "", "b"]));
    assert_eq!(split_tokens(&chars(" ")), words(&[""]));
    assert_eq!(split_tokens(&chars("  ")), words(&["", ""]));
    assert_eq!(split_tokens(&chars(" a")), words(&["", "a"]));
}

#[test]
fn split_tokens_of_nothing_is_nothing() {
    assert!(split_tokens(&chars("")).is_empty());
}

#[test]
fn split_tokens_agrees_with_split_terminator() {
    for text in ["", " ", "a", "a b", "a b ", " a b", "a  b  ", "toki pona li pona"] {
        let expected: Vec<Vec<char>> =
            text.split_terminator(SEPARATOR).map(|t| t.chars().collect()).collect();
        assert_eq!(split_tokens(&chars(text)), expected, "for {:?}", text);
    }
}

#[test]
fn one_wrong_character_splits_the_token() {
    let segments = align(&words(&["cat"]), &chars("cot"));
    assert_eq!(
        segments,
        vec![
            Segment::Correct(chars("c")),
            Segment::Incorrect { target: chars("a"), input: chars("o") },
            Segment::Correct(chars("t")),
            Segment::Correct(chars(" ")),
        ]
    );
}

#[test]
fn completed_word_then_untyped_word() {
    let segments = align(&words(&["cat", "dog"]), &chars("cat "));
    assert_eq!(
        segments,
        vec![
            Segment::Correct(chars("cat ")),
            Segment::NoInput(chars("dog")),
            Segment::Correct(chars(" ")),
        ]
    );
}

#[test]
fn untyped_token_is_one_no_input_segment() {
    let segments = align(&words(&["cat"]), &chars(""));
    assert_eq!(
        segments,
        vec![Segment::NoInput(chars("cat")), Segment::Correct(chars(" "))]
    );
}

#[test]
fn unmatched_input_token_is_one_excess_segment() {
    let segments = align(&words(&[]), &chars("dog"));
    assert_eq!(
        segments,
        vec![Segment::Excess(chars("dog")), Segment::Correct(chars(" "))]
    );
}

#[test]
fn exact_match_is_one_correct_segment() {
    assert_eq!(align_token(&chars("cat"), &chars("cat")), vec![Segment::Correct(chars("cat"))]);
    assert_eq!(
        align(&words(&["cat"]), &chars("cat")),
        vec![Segment::Correct(chars("cat")), Segment::Correct(chars(" "))]
    );
}

#[test]
fn exact_match_of_several_tokens_is_one_correct_run() {
    assert_eq!(
        align(&words(&["toki", "pona"]), &chars("toki pona")),
        vec![Segment::Correct(chars("toki pona")), Segment::Correct(chars(" "))]
    );
}

#[test]
fn nothing_against_nothing_yields_nothing() {
    assert!(align(&words(&[]), &chars("")).is_empty());
    assert!(align_token(&chars(""), &chars("")).is_empty());
}

#[test]
fn wrong_characters_gather_in_parallel_buffers() {
    assert_eq!(
        align_token(&chars("cat"), &chars("dog")),
        vec![Segment::Incorrect { target: chars("cat"), input: chars("dog") }]
    );
}

#[test]
fn input_beyond_the_token_is_excess() {
    assert_eq!(
        align_token(&chars("cat"), &chars("cats!")),
        vec![Segment::Correct(chars("cat")), Segment::Excess(chars("s!"))]
    );
}

#[test]
fn token_not_typed_to_its_end_has_a_no_input_tail() {
    assert_eq!(
        align_token(&chars("cat"), &chars("ca")),
        vec![Segment::Correct(chars("ca")), Segment::NoInput(chars("t"))]
    );
}

#[test]
fn separator_between_positions_joins_a_correct_run() {
    assert_eq!(
        align(&words(&["cat", "dog"]), &chars("cot dog")),
        vec![
            Segment::Correct(chars("c")),
            Segment::Incorrect { target: chars("a"), input: chars("o") },
            Segment::Correct(chars("t dog")),
            Segment::Correct(chars(" ")),
        ]
    );
}

#[test]
fn separator_is_correct_between_wrong_tokens() {
    assert_eq!(
        align(&words(&["ab", "cd"]), &chars("xy zw")),
        vec![
            Segment::Incorrect { target: chars("ab"), input: chars("xy") },
            Segment::Correct(chars(" ")),
            Segment::Incorrect { target: chars("cd"), input: chars("zw") },
            Segment::Correct(chars(" ")),
        ]
    );
}

#[test]
fn more_input_tokens_than_target_tokens() {
    assert_eq!(
        align(&words(&["cat"]), &chars("cat dog")),
        vec![
            Segment::Correct(chars("cat ")),
            Segment::Excess(chars("dog")),
            Segment::Correct(chars(" ")),
        ]
    );
}

#[test]
fn empty_token_inside_the_input_shifts_nothing() {
    assert_eq!(
        align(&words(&["a", "b", "c"]), &chars("a  c")),
        vec![
            Segment::Correct(chars("a ")),
            Segment::NoInput(chars("b")),
            Segment::Correct(chars(" c")),
            Segment::Correct(chars(" ")),
        ]
    );
}

#[test]
fn token_round_trip_spells_both_tokens() {
    let pairs = [("cat", "cot"), ("cat", ""), ("", "dog"), ("cat", "catalog"), ("kala", "la")];
    for (target, input) in pairs {
        let segments = align_token(&chars(target), &chars(input));
        assert_eq!(target_side(&segments), target);
        assert_eq!(input_side(&segments), input);
    }
}

#[test]
fn alignment_round_trip_spells_tokens_with_separators() {
    let segments = align(&words(&["toki", "pona", "li"]), &chars("toko pona "));
    assert_eq!(target_side(&segments), "toki pona li ");
    assert_eq!(input_side(&segments), "toko pona  ");
}

#[test]
fn no_two_neighbouring_segments_inside_a_token_are_of_one_kind() {
    let segments = align_token(&chars("aXbbYYc"), &chars("aZbbWWcdd"));
    assert_eq!(
        segments,
        vec![
            Segment::Correct(chars("a")),
            Segment::Incorrect { target: chars("X"), input: chars("Z") },
            Segment::Correct(chars("bb")),
            Segment::Incorrect { target: chars("YY"), input: chars("WW") },
            Segment::Correct(chars("c")),
            Segment::Excess(chars("dd")),
        ]
    );
}

#[test]
fn align_text_cuts_both_sides() {
    assert_eq!(
        align_text("cat dog", "cat "),
        vec![
            Segment::Correct(chars("cat ")),
            Segment::NoInput(chars("dog")),
            Segment::Correct(chars(" ")),
        ]
    );
    assert_eq!(align_text("cat dog", "cat "), align(&words(&["cat", "dog"]), &chars("cat ")));
    assert!(align_text("", "").is_empty());
}

#[test]
fn every_kind_of_segment_has_its_look() {
    assert_eq!(
        paint_segment(&Segment::Correct(chars("ab"))),
        Span { text: chars("ab"), emphasis: Emphasis::Plain }
    );
    assert_eq!(
        paint_segment(&Segment::Incorrect { target: chars("ab"), input: chars("xy") }),
        Span { text: chars("ab"), emphasis: Emphasis::Error }
    );
    assert_eq!(
        paint_segment(&Segment::Excess(chars("xy"))),
        Span { text: chars("xy"), emphasis: Emphasis::Excess }
    );
    assert_eq!(
        paint_segment(&Segment::NoInput(chars("abc"))),
        Span { text: chars("___"), emphasis: Emphasis::Blank }
    );
    assert_eq!(PLACEHOLDER, '_');
}

#[test]
fn paint_shows_an_alignment_span_by_span() {
    let spans = paint(&align(&words(&["cat", "dog"]), &chars("cot")));
    assert_eq!(
        spans,
        vec![
            Span { text: chars("c"), emphasis: Emphasis::Plain },
            Span { text: chars("a"), emphasis: Emphasis::Error },
            Span { text: chars("t "), emphasis: Emphasis::Plain },
            Span { text: chars("___"), emphasis: Emphasis::Blank },
            Span { text: chars(" "), emphasis: Emphasis::Plain },
        ]
    );
    assert!(paint(&Vec::new()).is_empty());
}
