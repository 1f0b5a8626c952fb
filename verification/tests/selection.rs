use std::collections::HashMap;
use typing_engine::corpus::{UsageCategory, WordData};
use typing_engine::selector::{
    draw_candidates, filter_corpus, select, SelectionCriteria, StatusChoice,
};

fn record(word: &str, tier: UsageCategory) -> WordData {
    WordData {
        id: format!("id-{}", word),
        usage_category: tier,
        word: word.to_string(),
        deprecated: false,
        ku_data: None,
        pu_verbatim: None,
        commentary: None,
        definitions: None,
    }
}

fn defined(word: &str, tier: UsageCategory, definitions: &str) -> WordData {
    let mut data = record(word, tier);
    data.definitions = Some(definitions.to_string());
    data
}

/// Criteria that admit every record, up to `sample_size` of them.
fn everything(sample_size: usize) -> SelectionCriteria {
    SelectionCriteria {
        in_use: true,
        deprecated: true,
        core_tier: true,
        common_tier: true,
        uncommon_tier: true,
        obscure_tier: true,
        sandbox_tier: true,
        ku: true,
        pu: true,
        commentary: true,
        definitions: true,
        sample_size,
    }
}

fn no_tier(mut criteria: SelectionCriteria) -> SelectionCriteria {
    criteria.core_tier = false;
    criteria.common_tier = false;
    criteria.uncommon_tier = false;
    criteria.obscure_tier = false;
    criteria.sandbox_tier = false;
    criteria
}

fn names(sample: &[&WordData]) -> Vec<String> {
    sample.iter().map(|w| w.word.clone()).collect()
}

fn sorted(mut names: Vec<String>) -> Vec<String> {
    names.sort();
    names
}

fn mixed_corpus() -> Vec<WordData> {
    let tiers = [
        UsageCategory::Core,
        UsageCategory::Common,
        UsageCategory::Uncommon,
        UsageCategory::Obscure,
        UsageCategory::Sandbox,
    ];
    let mut corpus = Vec::new();
    for n in 0..40 {
        corpus.push(record(&format!("w{:02}", n), tiers[n % 5]));
    }
    corpus
}

#[test]
fn core_word_with_a_definition_is_selected() {
    let corpus = vec![
        defined("cat", UsageCategory::Core, "a feline"),
        defined("dog", UsageCategory::Common, "a canine"),
    ];
    let mut criteria = no_tier(everything(1));
    criteria.core_tier = true;
    criteria.deprecated = false;
    assert_eq!(names(&select(&criteria, &corpus)), vec!["cat"]);
}

#[test]
fn default_criteria_have_no_flag_set() {
    let criteria = SelectionCriteria::default();
    assert!(!criteria.in_use && !criteria.deprecated);
    assert!(!criteria.core_tier && !criteria.common_tier && !criteria.uncommon_tier);
    assert!(!criteria.obscure_tier && !criteria.sandbox_tier);
    assert!(!criteria.ku && !criteria.pu && !criteria.commentary && !criteria.definitions);
    assert_eq!(criteria.sample_size, 0);
}

#[test]
fn criteria_without_flags_select_nothing() {
    let corpus = mixed_corpus();
    let mut criteria = SelectionCriteria::default();
    criteria.sample_size = 100;
    assert!(select(&criteria, &corpus).is_empty());
    assert!(filter_corpus(&criteria, &corpus).is_empty());
}

#[test]
fn one_tier_gives_words_of_that_tier_up_to_the_sample_size() {
    let corpus = mixed_corpus();
    let mut criteria = no_tier(everything(3));
    criteria.uncommon_tier = true;
    let sample = select(&criteria, &corpus);
    assert_eq!(sample.len(), 3);
    assert!(sample.iter().all(|w| w.usage_category == UsageCategory::Uncommon));
    assert_eq!(sorted(names(&sample)), vec!["w02", "w07", "w12"]);
}

#[test]
fn sample_is_no_larger_than_what_matches() {
    let corpus = mixed_corpus();
    let mut criteria = no_tier(everything(100));
    criteria.sandbox_tier = true;
    let sample = select(&criteria, &corpus);
    assert_eq!(sample.len(), 8);
    assert!(sample.iter().all(|w| w.usage_category == UsageCategory::Sandbox));
}

#[test]
fn sample_size_zero_selects_nothing() {
    let corpus = mixed_corpus();
    assert!(select(&everything(0), &corpus).is_empty());
    assert!(draw_candidates(&everything(0), &corpus).is_empty());
}

#[test]
fn empty_corpus_gives_an_empty_sample() {
    let corpus: Vec<WordData> = Vec::new();
    assert!(select(&everything(5), &corpus).is_empty());
}

#[test]
fn record_is_excluded_by_the_flag_of_its_own_tier_only() {
    let corpus = mixed_corpus();
    let mut criteria = everything(100);
    criteria.obscure_tier = false;
    let found = filter_corpus(&criteria, &corpus);
    assert_eq!(found.len(), 32);
    assert!(found.iter().all(|w| w.usage_category != UsageCategory::Obscure));
}

#[test]
fn deprecation_flags_govern_one_kind_of_record_each() {
    let mut old = record("old", UsageCategory::Core);
    old.deprecated = true;
    let corpus = vec![old, record("new", UsageCategory::Core)];

    let mut criteria = everything(10);
    criteria.deprecated = false;
    assert_eq!(names(&filter_corpus(&criteria, &corpus)), vec!["new"]);

    let mut criteria = everything(10);
    criteria.in_use = false;
    assert_eq!(names(&filter_corpus(&criteria, &corpus)), vec!["old"]);

    let mut criteria = everything(10);
    criteria.in_use = false;
    criteria.deprecated = false;
    assert!(filter_corpus(&criteria, &corpus).is_empty());

    assert_eq!(names(&filter_corpus(&everything(10), &corpus)), vec!["old", "new"]);
}

#[test]
fn optional_field_is_asked_for_unless_its_flag_is_set() {
    let mut ku = record("ku", UsageCategory::Core);
    ku.ku_data = Some(HashMap::from([("k".to_string(), 3u16)]));
    let mut pu = record("pu", UsageCategory::Core);
    pu.pu_verbatim = Some(HashMap::from([("en".to_string(), "text".to_string())]));
    let mut commented = record("commented", UsageCategory::Core);
    commented.commentary = Some("a note".to_string());
    let corpus = vec![
        ku,
        pu,
        commented,
        defined("defined", UsageCategory::Core, "a meaning"),
        record("bare", UsageCategory::Core),
    ];

    let mut criteria = everything(10);
    criteria.ku = false;
    assert_eq!(names(&filter_corpus(&criteria, &corpus)), vec!["ku"]);

    let mut criteria = everything(10);
    criteria.pu = false;
    assert_eq!(names(&filter_corpus(&criteria, &corpus)), vec!["pu"]);

    let mut criteria = everything(10);
    criteria.commentary = false;
    assert_eq!(names(&filter_corpus(&criteria, &corpus)), vec!["commented"]);

    let mut criteria = everything(10);
    criteria.definitions = false;
    assert_eq!(names(&filter_corpus(&criteria, &corpus)), vec!["defined"]);

    let mut criteria = everything(10);
    criteria.ku = false;
    criteria.pu = false;
    assert!(filter_corpus(&criteria, &corpus).is_empty());

    assert_eq!(filter_corpus(&everything(10), &corpus).len(), 5);
}

#[test]
fn candidates_are_the_first_matches_in_corpus_order() {
    let corpus = mixed_corpus();
    let mut criteria = no_tier(everything(4));
    criteria.core_tier = true;
    criteria.common_tier = true;
    assert_eq!(names(&draw_candidates(&criteria, &corpus)), vec!["w00", "w01", "w05", "w06"]);
    assert_eq!(filter_corpus(&criteria, &corpus).len(), 16);
}

#[test]
fn sample_holds_the_candidates_in_some_order() {
    let corpus = mixed_corpus();
    let criteria = everything(25);
    let expected: Vec<String> = corpus.iter().take(25).map(|w| w.word.clone()).collect();
    let sample = select(&criteria, &corpus);
    assert_eq!(sorted(names(&sample)), expected);
}

#[test]
fn sample_order_is_shuffled() {
    let corpus = mixed_corpus();
    let criteria = everything(40);
    let in_order: Vec<String> = corpus.iter().map(|w| w.word.clone()).collect();
    let mut moved = false;
    for _ in 0..20 {
        let sample = names(&select(&criteria, &corpus));
        assert_eq!(sorted(sample.clone()), in_order);
        if sample != in_order {
            moved = true;
        }
    }
    assert!(moved, "forty words came out in corpus order twenty times in a row");
}

#[test]
fn passes_is_what_filter_corpus_goes_by() {
    let corpus = mixed_corpus();
    let mut criteria = no_tier(everything(100));
    criteria.common_tier = true;
    let expected: Vec<String> =
        corpus.iter().filter(|w| criteria.passes(w)).map(|w| w.word.clone()).collect();
    assert_eq!(names(&filter_corpus(&criteria, &corpus)), expected);
    assert_eq!(expected.len(), 8);
}

#[test]
fn status_flags_make_one_of_four_choices() {
    let mut criteria = everything(1);
    assert_eq!(criteria.status_choice(), StatusChoice::Both);
    criteria.deprecated = false;
    assert_eq!(criteria.status_choice(), StatusChoice::InUseOnly);
    criteria.in_use = false;
    assert_eq!(criteria.status_choice(), StatusChoice::Neither);
    criteria.deprecated = true;
    assert_eq!(criteria.status_choice(), StatusChoice::DeprecatedOnly);
}

#[test]
fn with_status_sets_the_two_flags_and_nothing_else() {
    let base = no_tier(everything(7));
    for choice in [
        StatusChoice::Neither,
        StatusChoice::InUseOnly,
        StatusChoice::DeprecatedOnly,
        StatusChoice::Both,
    ] {
        let criteria = base.with_status(choice);
        assert_eq!(criteria.status_choice(), choice);
        assert_eq!(criteria.sample_size, 7);
        assert!(criteria.ku && criteria.pu && criteria.commentary && criteria.definitions);
        assert!(!criteria.core_tier && !criteria.sandbox_tier);
    }
    let mut old = record("old", UsageCategory::Core);
    old.deprecated = true;
    let corpus = vec![old, record("new", UsageCategory::Core)];
    let only_old = everything(5).with_status(StatusChoice::DeprecatedOnly);
    assert_eq!(names(&filter_corpus(&only_old, &corpus)), vec!["old"]);
}
