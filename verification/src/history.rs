use vstd::prelude::*;

verus! {

use crate::strata::{Group, Gender, AgeBand, StrataKey, age_band_of};

/// One completed allocation: created once, appended to the history, never
/// changed. The history is the only state the balance counts derive from.
#[derive(Clone, Debug)]
pub struct AssignmentRecord {
    pub subject_id: String,
    pub name: Option<String>,
    pub age: i64,
    pub gender: Gender,
    pub group: Group,
}

/// The stratification key a record falls under.
pub open spec fn record_key(r: AssignmentRecord) -> StrataKey {
    StrataKey { gender: r.gender, age_band: age_band_of(r.age as int) }
}

/// How many records of `h` fall under `key` and carry the label `g`.
pub open spec fn count_records(h: Seq<AssignmentRecord>, key: StrataKey, g: Group) -> nat
    decreases h.len(),
{
    if h.len() == 0 {
        0
    } else {
        count_records(h.drop_last(), key, g) + if record_key(h.last()) == key && h.last().group
            == g {
            1nat
        } else {
            0nat
        }
    }
}

/// How many records of `h` carry the label `g`, over all strata.
pub open spec fn total_records(h: Seq<AssignmentRecord>, g: Group) -> nat
    decreases h.len(),
{
    if h.len() == 0 {
        0
    } else {
        total_records(h.drop_last(), g) + if h.last().group == g {
            1nat
        } else {
            0nat
        }
    }
}

/// The per-arm tallies of one stratum.
#[derive(Clone, Copy, PartialEq, Eq, Structural, Debug)]
pub struct StratumCounts {
    pub count_a: usize,
    pub count_b: usize,
}

/// The per-arm tallies of all four strata, derived from the history alone.
#[derive(Clone, Copy, PartialEq, Eq, Structural, Debug)]
pub struct BalanceCounts {
    pub male_under: StratumCounts,
    pub male_at_least: StratumCounts,
    pub female_under: StratumCounts,
    pub female_at_least: StratumCounts,
}

impl BalanceCounts {
    /// The tallies this summary holds for a given key.
    pub open spec fn spec_get(self, key: StrataKey) -> StratumCounts {
        match (key.gender, key.age_band) {
            (Gender::Male, AgeBand::Under55) => self.male_under,
            (Gender::Male, AgeBand::AtLeast55) => self.male_at_least,
            (Gender::Female, AgeBand::Under55) => self.female_under,
            (Gender::Female, AgeBand::AtLeast55) => self.female_at_least,
        }
    }

    /// Looks up the tallies of one stratum.
    pub fn for_key(&self, key: StrataKey) -> (r: StratumCounts)
        ensures
            r == self.spec_get(key),
    {
        match (key.gender, key.age_band) {
            (Gender::Male, AgeBand::Under55) => self.male_under,
            (Gender::Male, AgeBand::AtLeast55) => self.male_at_least,
            (Gender::Female, AgeBand::Under55) => self.female_under,
            (Gender::Female, AgeBand::AtLeast55) => self.female_at_least,
        }
    }

    /// A summary with every tally zero: the counts of an empty history.
    pub fn zero() -> (c: BalanceCounts)
        ensures
            counts_match_history(c, Seq::empty()),
            c.male_under == (StratumCounts { count_a: 0, count_b: 0 }),
            c.male_at_least == (StratumCounts { count_a: 0, count_b: 0 }),
            c.female_under == (StratumCounts { count_a: 0, count_b: 0 }),
            c.female_at_least == (StratumCounts { count_a: 0, count_b: 0 }),
    {
        let z = StratumCounts { count_a: 0, count_b: 0 };
        BalanceCounts { male_under: z, male_at_least: z, female_under: z, female_at_least: z }
    }
}

/// The summary `c` holds, for every stratum and both arms, exactly the tally
/// that a full rescan of the history `h` produces.
pub open spec fn counts_match_history(c: BalanceCounts, h: Seq<AssignmentRecord>) -> bool {
    forall|key: StrataKey|
        #[trigger] c.spec_get(key) == (StratumCounts {
            count_a: count_records(h, key, Group::A) as usize,
            count_b: count_records(h, key, Group::B) as usize,
        })
}

/// A tally never exceeds the number of records scanned.
pub proof fn lemma_count_records_le_len(h: Seq<AssignmentRecord>, key: StrataKey, g: Group)
    ensures
        count_records(h, key, g) <= h.len(),
    decreases h.len(),
{
    if h.len() > 0 {
        lemma_count_records_le_len(h.drop_last(), key, g);
    }
}

pub proof fn lemma_total_records_le_len(h: Seq<AssignmentRecord>, g: Group)
    ensures
        total_records(h, g) <= h.len(),
    decreases h.len(),
{
    if h.len() > 0 {
        lemma_total_records_le_len(h.drop_last(), g);
    }
}

/// Law (reload consistency): the tallies of a history extended by one record
/// are the tallies of the original history with that one record added in.
/// Rescanning all records and updating incrementally therefore agree.
pub proof fn lemma_counts_incremental(
    h: Seq<AssignmentRecord>,
    r: AssignmentRecord,
    key: StrataKey,
    g: Group,
)
    ensures
        count_records(h.push(r), key, g) == count_records(h, key, g) + if record_key(r) == key
            && r.group == g {
            1nat
        } else {
            0nat
        },
        total_records(h.push(r), g) == total_records(h, g) + if r.group == g {
            1nat
        } else {
            0nat
        },
{
    assert(h.push(r).drop_last() =~= h);
    assert(h.push(r).last() == r);
}

/// Law (idempotence): the balance counts are a function of the history alone,
/// so two summaries taken of one unmodified history are identical.
pub proof fn lemma_counts_deterministic(
    c1: BalanceCounts,
    c2: BalanceCounts,
    h: Seq<AssignmentRecord>,
)
    requires
        counts_match_history(c1, h),
        counts_match_history(c2, h),
    ensures
        c1 == c2,
{
    assert(c1.spec_get(StrataKey { gender: Gender::Male, age_band: AgeBand::Under55 })
        == c2.spec_get(StrataKey { gender: Gender::Male, age_band: AgeBand::Under55 }));
    assert(c1.spec_get(StrataKey { gender: Gender::Male, age_band: AgeBand::AtLeast55 })
        == c2.spec_get(StrataKey { gender: Gender::Male, age_band: AgeBand::AtLeast55 }));
    assert(c1.spec_get(StrataKey { gender: Gender::Female, age_band: AgeBand::Under55 })
        == c2.spec_get(StrataKey { gender: Gender::Female, age_band: AgeBand::Under55 }));
    assert(c1.spec_get(StrataKey { gender: Gender::Female, age_band: AgeBand::AtLeast55 })
        == c2.spec_get(StrataKey { gender: Gender::Female, age_band: AgeBand::AtLeast55 }));
}

/// One scan step: the tallies over the first `i + 1` records extend those
/// over the first `i` records by the one record at `i`, and every tally so
/// far is bounded by `i`.
pub proof fn lemma_tally_take_step(h: Seq<AssignmentRecord>, i: int)
    requires
        0 <= i < h.len(),
    ensures
        forall|key: StrataKey, g: Group|
            #[trigger] count_records(h.take(i + 1), key, g) == count_records(h.take(i), key, g)
                + if record_key(h[i]) == key && h[i].group == g {
                1nat
            } else {
                0nat
            },
        forall|key: StrataKey, g: Group| #[trigger] count_records(h.take(i), key, g) <= i,
        forall|g: Group|
            #[trigger] total_records(h.take(i + 1), g) == total_records(h.take(i), g) + if h[i].group
                == g {
                1nat
            } else {
                0nat
            },
        forall|g: Group| #[trigger] total_records(h.take(i), g) <= i,
{
    assert(h.take(i + 1).drop_last() =~= h.take(i));
    assert(h.take(i + 1).last() == h[i]);
    assert forall|key: StrataKey, g: Group| #[trigger] count_records(h.take(i), key, g) <= i by {
        lemma_count_records_le_len(h.take(i), key, g);
    }
    assert forall|g: Group| #[trigger] total_records(h.take(i), g) <= i by {
        lemma_total_records_le_len(h.take(i), g);
    }
}

} // verus!
