//! Sampling the corpus: which words a session is made of.

use crate::corpus::{records_of, UsageCategory, WordData};
use vstd::prelude::*;

verus! {

/// Which words the two status flags of the criteria admit between them.
#[derive(Debug, Clone, Copy, PartialEq, Eq, Structural)]
pub enum StatusChoice {
    /// Neither flag is set: no word is admitted.
    Neither,
    /// Words in use only.
    InUseOnly,
    /// Deprecated words only.
    DeprecatedOnly,
    /// Words of either status.
    Both,
}

impl StatusChoice {
    /// Whether a word is admitted that is deprecated, or one that is not.
    pub open spec fn admits(self, deprecated: bool) -> bool {
        match self {
            StatusChoice::Neither => false,
            StatusChoice::InUseOnly => !deprecated,
            StatusChoice::DeprecatedOnly => deprecated,
            StatusChoice::Both => true,
        }
    }
}

/// What a session asks of its words. Every flag admits something when set, so
/// criteria with no flag set admit nothing.
#[derive(Debug, Clone, Copy, PartialEq, Eq, Structural)]
pub struct SelectionCriteria {
    /// Admit words that are in use, that is not deprecated.
    pub in_use: bool,
    /// Admit deprecated words.
    pub deprecated: bool,
    /// Admit words of the core tier.
    pub core_tier: bool,
    /// Admit words of the common tier.
    pub common_tier: bool,
    /// Admit words of the uncommon tier.
    pub uncommon_tier: bool,
    /// Admit words of the obscure tier.
    pub obscure_tier: bool,
    /// Admit words of the sandbox tier.
    pub sandbox_tier: bool,
    /// Admit words without per-keystroke data.
    pub ku: bool,
    /// Admit words without verbatim text.
    pub pu: bool,
    /// Admit words without commentary.
    pub commentary: bool,
    /// Admit words without a definition.
    pub definitions: bool,
    /// The greatest number of words to take.
    pub sample_size: usize,
}

impl SelectionCriteria {
    /// Criteria that admit nothing: no flag set and a sample size of zero.
    pub open spec fn nothing() -> SelectionCriteria {
        SelectionCriteria {
            in_use: false,
            deprecated: false,
            core_tier: false,
            common_tier: false,
            uncommon_tier: false,
            obscure_tier: false,
            sandbox_tier: false,
            ku: false,
            pu: false,
            commentary: false,
            definitions: false,
            sample_size: 0,
        }
    }

    /// Whether words of `tier` are admitted.
    pub open spec fn admits_tier(self, tier: UsageCategory) -> bool {
        match tier {
            UsageCategory::Core => self.core_tier,
            UsageCategory::Common => self.common_tier,
            UsageCategory::Uncommon => self.uncommon_tier,
            UsageCategory::Obscure => self.obscure_tier,
            UsageCategory::Sandbox => self.sandbox_tier,
        }
    }

    /// Whether no flag is set.
    pub open spec fn unflagged(self) -> bool {
        &&& !self.in_use && !self.deprecated
        &&& !self.core_tier && !self.common_tier && !self.uncommon_tier && !self.obscure_tier
            && !self.sandbox_tier
        &&& !self.ku && !self.pu && !self.commentary && !self.definitions
    }

    /// The choice that the two status flags make between them. Each flag
    /// speaks for one kind of word and has no say on the other.
    pub open spec fn status(self) -> StatusChoice {
        if self.in_use && self.deprecated {
            StatusChoice::Both
        } else if self.in_use {
            StatusChoice::InUseOnly
        } else if self.deprecated {
            StatusChoice::DeprecatedOnly
        } else {
            StatusChoice::Neither
        }
    }

    /// Whether `tier` is the one tier admitted.
    pub open spec fn admits_only(self, tier: UsageCategory) -> bool {
        forall|other: UsageCategory| self.admits_tier(other) <==> other == tier
    }

    /// Whether `record` passes every filter: the one for its own tier, the one
    /// for its deprecation status, and for each optional field the one that
    /// asks for the field unless its flag is set.
    pub open spec fn admits(self, record: WordData) -> bool {
        &&& self.admits_tier(record.usage_category)
        &&& self.status().admits(record.deprecated)
        &&& (self.ku || record.ku_data is Some)
        &&& (self.pu || record.pu_verbatim is Some)
        &&& (self.commentary || record.commentary is Some)
        &&& (self.definitions || record.definitions is Some)
    }

    /// Tells which choice the two status flags make between them.
    pub fn status_choice(&self) -> (choice: StatusChoice)
        ensures
            choice == self.status(),
    {
        if self.in_use && self.deprecated {
            StatusChoice::Both
        } else if self.in_use {
            StatusChoice::InUseOnly
        } else if self.deprecated {
            StatusChoice::DeprecatedOnly
        } else {
            StatusChoice::Neither
        }
    }

    /// These criteria with the status flags set as `choice` asks.
    pub fn with_status(self, choice: StatusChoice) -> (criteria: SelectionCriteria)
        ensures
            criteria.status() == choice,
            criteria == (SelectionCriteria {
                in_use: criteria.in_use,
                deprecated: criteria.deprecated,
                ..self
            }),
    {
        let (in_use, deprecated) = match choice {
            StatusChoice::Neither => (false, false),
            StatusChoice::InUseOnly => (true, false),
            StatusChoice::DeprecatedOnly => (false, true),
            StatusChoice::Both => (true, true),
        };
        SelectionCriteria { in_use, deprecated, ..self }
    }

    /// Tells whether `record` passes every filter.
    pub fn passes(&self, record: &WordData) -> (admitted: bool)
        ensures
            admitted == self.admits(*record),
    {
        let tier = match record.usage_category {
            UsageCategory::Core => self.core_tier,
            UsageCategory::Common => self.common_tier,
            UsageCategory::Uncommon => self.uncommon_tier,
            UsageCategory::Obscure => self.obscure_tier,
            UsageCategory::Sandbox => self.sandbox_tier,
        };
        let status = if record.deprecated {
            self.deprecated
        } else {
            self.in_use
        };
        tier && status && (self.ku || record.ku_data.is_some()) && (self.pu
            || record.pu_verbatim.is_some()) && (self.commentary || record.commentary.is_some())
            && (self.definitions || record.definitions.is_some())
    }
}

impl Default for SelectionCriteria {
    fn default() -> (criteria: SelectionCriteria)
        ensures
            criteria == SelectionCriteria::nothing(),
    {
        SelectionCriteria {
            in_use: false,
            deprecated: false,
            core_tier: false,
            common_tier: false,
            uncommon_tier: false,
            obscure_tier: false,
            sandbox_tier: false,
            ku: false,
            pu: false,
            commentary: false,
            definitions: false,
            sample_size: 0,
        }
    }
}

/// The records of `corpus` that `criteria` admit, in corpus order.
pub open spec fn matching(criteria: SelectionCriteria, corpus: Seq<WordData>) -> Seq<WordData> {
    corpus.filter(|record: WordData| criteria.admits(record))
}

/// The first `limit` items of `items`, or all of them where there are fewer.
pub open spec fn at_most<T>(items: Seq<T>, limit: nat) -> Seq<T> {
    if limit <= items.len() {
        items.take(limit as int)
    } else {
        items
    }
}

/// The records a sample is drawn from: the first `sample_size` of the
/// matching ones.
pub open spec fn candidates(criteria: SelectionCriteria, corpus: Seq<WordData>) -> Seq<WordData> {
    at_most(matching(criteria, corpus), criteria.sample_size as nat)
}

/// Whether `sample` holds the candidates, each as often as they do, in any
/// order.
pub open spec fn is_sample(
    sample: Seq<WordData>,
    criteria: SelectionCriteria,
    corpus: Seq<WordData>,
) -> bool {
    sample.to_multiset() == candidates(criteria, corpus).to_multiset()
}

/// All records of `corpus` that `criteria` admit, in corpus order.
pub fn filter_corpus<'a>(criteria: &SelectionCriteria, corpus: &'a Vec<WordData>) -> (found: Vec<
    &'a WordData,
>)
    ensures
        records_of(found@) == matching(*criteria, corpus@),
{
    let mut found: Vec<&'a WordData> = Vec::new();
    let ghost admitted = |record: WordData| criteria.admits(record);
    let mut k: usize = 0;
    assert(corpus@.take(0) =~= Seq::empty());
    assert(records_of(found@) =~= corpus@.take(0).filter(admitted)) by {
        reveal(Seq::filter);
    }
    while k < corpus.len()
        invariant
            k <= corpus.len(),
            admitted == |record: WordData| criteria.admits(record),
            records_of(found@) == corpus@.take(k as int).filter(admitted),
        decreases corpus.len() - k,
    {
        let record = &corpus[k];
        let ghost before = records_of(found@);
        proof {
            corpus@.take(k as int).lemma_filter_push(*record, admitted);
            assert(corpus@.take(k as int).push(*record) =~= corpus@.take(k + 1));
        }
        if criteria.passes(record) {
            found.push(record);
            assert(records_of(found@) =~= before.push(*record));
        }
        k += 1;
    }
    assert(corpus@.take(k as int) =~= corpus@);
    found
}

/// The records a sample is drawn from, in corpus order.
pub fn draw_candidates<'a>(criteria: &SelectionCriteria, corpus: &'a Vec<WordData>) -> (found: Vec<
    &'a WordData,
>)
    ensures
        records_of(found@) == candidates(*criteria, corpus@),
{
    let mut found = filter_corpus(criteria, corpus);
    let ghost all = records_of(found@);
    found.truncate(criteria.sample_size);
    assert(records_of(found@) =~= at_most(all, criteria.sample_size as nat));
    found
}

/// `rand::seq::SliceRandom::shuffle` on the items, with the generator that
/// `rand::thread_rng` hands out: the items are rearranged in place. Which
/// order comes out is left open; the contract claims only that the same items
/// are there after the call, each as often as before. The generator seeds
/// itself from the operating system when a thread first asks for it, and
/// panics if that source fails.
#[verifier::external_body]
fn shuffle<T>(items: &mut Vec<T>)
    ensures
        final(items)@.to_multiset() == old(items)@.to_multiset(),
{
    rand::seq::SliceRandom::shuffle(items.as_mut_slice(), &mut rand::thread_rng());
}

/// References that are the same, each as often, in two sequences lead to
/// records that are the same, each as often.
proof fn lemma_records_rearranged(a: Seq<&WordData>, b: Seq<&WordData>)
    requires
        a.to_multiset() == b.to_multiset(),
    ensures
        records_of(a).to_multiset() == records_of(b).to_multiset(),
    decreases a.len(),
{
    a.to_multiset_ensures();
    b.to_multiset_ensures();
    if a.len() == 0 {
        assert(records_of(a) =~= records_of(b));
    } else {
        let last = a.len() - 1;
        let x = a[last];
        assert(a.contains(x));
        assert(b.to_multiset().count(x) > 0);
        assert(b.contains(x));
        let j = choose|j: int| 0 <= j < b.len() && b[j] == x;
        let shorter = a.remove(last);
        let other = b.remove(j);
        assert(shorter.to_multiset() == other.to_multiset());
        lemma_records_rearranged(shorter, other);
        let ra = records_of(a);
        let rb = records_of(b);
        ra.to_multiset_ensures();
        rb.to_multiset_ensures();
        assert(ra.remove(last) =~= records_of(shorter));
        assert(rb.remove(j) =~= records_of(other));
        assert(ra[last] == rb[j]);
        assert(ra.contains(ra[last]));
        assert(rb.contains(rb[j]));
        assert(ra.to_multiset() =~= ra.to_multiset().remove(*x).insert(*x));
        assert(rb.to_multiset() =~= rb.to_multiset().remove(*x).insert(*x));
    }
}

/// Draws the words of a session: the first `sample_size` records that the
/// criteria admit, in random order.
///
/// The sample holds exactly the candidates, so it has as many words as there
/// are matching records, up to the sample size, and every one of them
/// passes every filter. An empty sample is a valid outcome.
pub fn select<'a>(criteria: &SelectionCriteria, corpus: &'a Vec<WordData>) -> (sample: Vec<
    &'a WordData,
>)
    ensures
        is_sample(records_of(sample@), *criteria, corpus@),
        sample@.len() == candidates(*criteria, corpus@).len(),
        forall|k: int| 0 <= k < sample@.len() ==> criteria.admits(*#[trigger] sample@[k]),
{
    let mut sample = draw_candidates(criteria, corpus);
    let ghost drawn = sample@;
    shuffle(&mut sample);
    proof {
        lemma_records_rearranged(sample@, drawn);
        lemma_sample(records_of(sample@), *criteria, corpus@);
        assert forall|k: int| 0 <= k < sample@.len() implies criteria.admits(
            *#[trigger] sample@[k],
        ) by {
            assert(records_of(sample@)[k] == *sample@[k]);
        }
    }
    sample
}

/// A sample has as many words as there are candidates, and the criteria
/// admit every one of them.
pub proof fn lemma_sample(sample: Seq<WordData>, criteria: SelectionCriteria, corpus: Seq<WordData>)
    requires
        is_sample(sample, criteria, corpus),
    ensures
        sample.len() == candidates(criteria, corpus).len(),
        forall|k: int| 0 <= k < sample.len() ==> criteria.admits(#[trigger] sample[k]),
{
    let drawn = candidates(criteria, corpus);
    let all = matching(criteria, corpus);
    let admitted = |record: WordData| criteria.admits(record);
    sample.to_multiset_ensures();
    drawn.to_multiset_ensures();
    assert forall|k: int| 0 <= k < sample.len() implies criteria.admits(#[trigger] sample[k]) by {
        assert(sample.contains(sample[k]));
        assert(drawn.to_multiset().count(sample[k]) > 0);
        assert(drawn.contains(sample[k]));
        let j = choose|j: int| 0 <= j < drawn.len() && drawn[j] == sample[k];
        assert(all[j] == sample[k]);
        corpus.lemma_filter_pred(admitted, j);
    }
}

/// The number of candidates is the number of matching records, up to the
/// sample size.
pub proof fn lemma_candidates_len(criteria: SelectionCriteria, corpus: Seq<WordData>)
    ensures
        candidates(criteria, corpus).len() == if criteria.sample_size <= matching(
            criteria,
            corpus,
        ).len() {
            criteria.sample_size as nat
        } else {
            matching(criteria, corpus).len()
        },
        matching(criteria, corpus).len() <= corpus.len(),
{
    corpus.lemma_filter_len(|record: WordData| criteria.admits(record));
}

/// Criteria with no flag set select nothing, whatever the corpus and the
/// sample size.
pub proof fn lemma_unflagged_selects_nothing(
    sample: Seq<WordData>,
    criteria: SelectionCriteria,
    corpus: Seq<WordData>,
)
    requires
        criteria.unflagged(),
        is_sample(sample, criteria, corpus),
    ensures
        matching(criteria, corpus).len() == 0,
        sample.len() == 0,
{
    let all = matching(criteria, corpus);
    if all.len() > 0 {
        corpus.lemma_filter_pred(|record: WordData| criteria.admits(record), 0);
        assert(criteria.admits(all[0]));
    }
    lemma_sample(sample, criteria, corpus);
}

/// Criteria that admit one tier only select words of that tier, as many as
/// there are matching records, up to the sample size.
pub proof fn lemma_single_tier(
    sample: Seq<WordData>,
    criteria: SelectionCriteria,
    corpus: Seq<WordData>,
    tier: UsageCategory,
)
    requires
        criteria.admits_only(tier),
        is_sample(sample, criteria, corpus),
    ensures
        sample.len() == if criteria.sample_size <= matching(criteria, corpus).len() {
            criteria.sample_size as nat
        } else {
            matching(criteria, corpus).len()
        },
        forall|k: int| 0 <= k < sample.len() ==> (#[trigger] sample[k]).usage_category == tier,
{
    lemma_sample(sample, criteria, corpus);
    lemma_candidates_len(criteria, corpus);
    assert forall|k: int| 0 <= k < sample.len() implies (#[trigger] sample[k]).usage_category
        == tier by {
        assert(criteria.admits(sample[k]));
        assert(criteria.admits_tier(sample[k].usage_category));
    }
}

} // verus!
