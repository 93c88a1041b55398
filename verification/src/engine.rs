use vstd::prelude::*;

verus! {

use crate::strata::{Group, Gender, AgeBand, StrataKey, AllocError, age_band_of, derive_key,
    key_index, key_index_spec};
use crate::counting::{ab_groups_spec, cycle_block};
use crate::history::{AssignmentRecord, BalanceCounts, StratumCounts, count_records,
    total_records, counts_match_history, lemma_count_records_le_len, lemma_total_records_le_len,
    lemma_tally_take_step};
use crate::block::{BlockRandomizer, assign_transition, regen_then_pop, lemma_regen_then_pop};

/// The absolute difference of two tallies.
pub open spec fn abs_diff(a: int, b: int) -> int {
    if a >= b {
        a - b
    } else {
        b - a
    }
}

/// The rebalancing rule. The global imbalance is examined first, then the
/// imbalance within the stratum; either one at or above half the block size
/// biases the next block toward the under-represented arm. Otherwise no
/// priority is set.
pub open spec fn bias_spec(ta: int, tb: int, sa: int, sb: int, bs: int) -> Option<Group> {
    let half = bs / 2;
    if abs_diff(ta, tb) >= half {
        Some(if ta > tb {
            Group::B
        } else {
            Group::A
        })
    } else if abs_diff(sa, sb) >= half {
        Some(if sa > sb {
            Group::B
        } else {
            Group::A
        })
    } else {
        None
    }
}

/// Decides whether the next block must favor one arm, from the global and
/// per-stratum tallies as of the last completed assignment.
pub fn decide_bias(
    total_a: usize,
    total_b: usize,
    strat_a: usize,
    strat_b: usize,
    block_size: usize,
) -> (r: Option<Group>)
    ensures
        r == bias_spec(
            total_a as int,
            total_b as int,
            strat_a as int,
            strat_b as int,
            block_size as int,
        ),
{
    let half = block_size / 2;
    let tdiff = if total_a >= total_b {
        total_a - total_b
    } else {
        total_b - total_a
    };
    if tdiff >= half {
        if total_a > total_b {
            Some(Group::B)
        } else {
            Some(Group::A)
        }
    } else {
        let sdiff = if strat_a >= strat_b {
            strat_a - strat_b
        } else {
            strat_b - strat_a
        };
        if sdiff >= half {
            if strat_a > strat_b {
                Some(Group::B)
            } else {
                Some(Group::A)
            }
        } else {
            None
        }
    }
}

/// The fixed two-arm group list, in iteration order.
pub fn ab_groups() -> (v: Vec<Group>)
    ensures
        v@ == ab_groups_spec(),
{
    let mut v: Vec<Group> = Vec::new();
    v.push(Group::A);
    v.push(Group::B);
    proof {
        assert(v@ =~= ab_groups_spec());
    }
    v
}

/// Tallies the records of one stratum carrying one label, by a full scan.
fn count_for(log: &Vec<AssignmentRecord>, key: StrataKey, g: Group) -> (cnt: usize)
    ensures
        cnt as nat == count_records(log@, key, g),
{
    let n = log.len();
    let mut cnt: usize = 0;
    let mut i: usize = 0;
    while i < n
        invariant
            i <= n,
            n == log@.len(),
            cnt as nat == count_records(log@.take(i as int), key, g),
        decreases n - i,
    {
        proof {
            lemma_tally_take_step(log@, i as int);
        }
        let rec = &log[i];
        let band = if rec.age < 55 {
            AgeBand::Under55
        } else {
            AgeBand::AtLeast55
        };
        let rkey = StrataKey { gender: rec.gender, age_band: band };
        if rkey == key && rec.group == g {
            cnt = cnt + 1;
        }
        i = i + 1;
    }
    proof {
        assert(log@.take(n as int) =~= log@);
    }
    cnt
}

/// Tallies the records carrying one label over all strata, by a full scan.
fn total_for(log: &Vec<AssignmentRecord>, g: Group) -> (cnt: usize)
    ensures
        cnt as nat == total_records(log@, g),
{
    let n = log.len();
    let mut cnt: usize = 0;
    let mut i: usize = 0;
    while i < n
        invariant
            i <= n,
            n == log@.len(),
            cnt as nat == total_records(log@.take(i as int), g),
        decreases n - i,
    {
        proof {
            lemma_tally_take_step(log@, i as int);
        }
        if log[i].group == g {
            cnt = cnt + 1;
        }
        i = i + 1;
    }
    proof {
        assert(log@.take(n as int) =~= log@);
    }
    cnt
}

/// The allocation engine and its state: the four per-stratum queues, the
/// append-only history of completed assignments, and cached tallies for
/// display. The queues are pre-initialized for the whole closed key domain.
pub struct App {
    pub block_size: usize,
    /// Whether the dynamic rebalancing heuristic is applied. Switched off,
    /// the engine degrades to plain per-stratum block randomization.
    pub bias_enabled: bool,
    pub randomizers: Vec<BlockRandomizer>,
    pub log: Vec<AssignmentRecord>,
    pub counts_cache: BalanceCounts,
    pub total_cache: (usize, usize),
}

impl App {
    /// The configuration keeps the balance guarantee: at least two slots per
    /// block, and one queue per stratum, each over the two arms and agreeing
    /// on the block size.
    pub open spec fn config_ok(self) -> bool {
        &&& self.block_size >= 2
        &&& self.randomizers@.len() == 4
        &&& forall|j: int|
            0 <= j < 4 ==> (#[trigger] self.randomizers@[j]).block_size == self.block_size
                && self.randomizers@[j].groups@ == ab_groups_spec()
    }

    /// The bias the engine decides for a request under `key`, computed from
    /// the history as of the last completed assignment. With the rebalancing
    /// heuristic switched off no request is ever biased.
    pub open spec fn engine_bias(self, key: StrataKey) -> Option<Group> {
        if self.bias_enabled {
            bias_spec(
                total_records(self.log@, Group::A) as int,
                total_records(self.log@, Group::B) as int,
                count_records(self.log@, key, Group::A) as int,
                count_records(self.log@, key, Group::B) as int,
                self.block_size as int,
            )
        } else {
            None
        }
    }

    /// Creates an engine with an empty history and one freshly filled queue
    /// per stratum. A block size that cannot hold both arms is rejected.
    pub fn new(block_size: usize) -> (r: Result<App, AllocError>)
        ensures
            block_size < 2 ==> r == Err::<App, AllocError>(AllocError::ConfigurationError),
            block_size >= 2 ==> r is Ok && ({
                let app = r->Ok_0;
                &&& app.config_ok()
                &&& app.block_size == block_size
                &&& app.bias_enabled
                &&& app.log@ == Seq::<AssignmentRecord>::empty()
                &&& counts_match_history(app.counts_cache, app.log@)
                &&& app.total_cache == (0usize, 0usize)
                &&& forall|j: int|
                    0 <= j < 4 ==> (#[trigger] app.randomizers@[j]).queue@.len() == block_size
                        && app.randomizers@[j].queue@.to_multiset() == cycle_block(
                        ab_groups_spec(),
                        block_size as nat,
                    ).to_multiset()
            }),
    {
        if block_size < 2 {
            return Err(AllocError::ConfigurationError);
        }
        let mut randomizers: Vec<BlockRandomizer> = Vec::new();
        let mut i: usize = 0;
        while i < 4
        invariant
            i <= 4,
            block_size >= 2,
            randomizers@.len() == i,
            forall|j: int|
                0 <= j < i ==> (#[trigger] randomizers@[j]).block_size == block_size
                    && randomizers@[j].groups@ == ab_groups_spec()
                    && randomizers@[j].queue@.len() == block_size
                    && randomizers@[j].queue@.to_multiset() == cycle_block(
                    ab_groups_spec(),
                    block_size as nat,
                ).to_multiset(),
            decreases 4 - i,
        {
            randomizers.push(BlockRandomizer::new(block_size, ab_groups()));
            i = i + 1;
        }
        let app = App {
            block_size,
            bias_enabled: true,
            randomizers,
            log: Vec::new(),
            counts_cache: BalanceCounts::zero(),
            total_cache: (0, 0),
        };
        Ok(app)
    }

    /// Checks at run time that the engine's configuration is sound.
    fn check_config(&self) -> (ok: bool)
        ensures
            ok == self.config_ok(),
    {
        if self.block_size < 2 {
            return false;
        }
        if self.randomizers.len() != 4 {
            return false;
        }
        let ok = randomizer_ok(&self.randomizers[0], self.block_size) && randomizer_ok(
            &self.randomizers[1],
            self.block_size,
        ) && randomizer_ok(&self.randomizers[2], self.block_size) && randomizer_ok(
            &self.randomizers[3],
            self.block_size,
        );
        proof {
            if ok {
                assert forall|j: int|
                    0 <= j < 4 implies (#[trigger] self.randomizers@[j]).block_size
                    == self.block_size && self.randomizers@[j].groups@ == ab_groups_spec() by {
                    assert(j == 0 || j == 1 || j == 2 || j == 3);
                }
            }
        }
        ok
    }

    /// Recomputes the per-stratum tallies from the history by a full rescan.
    pub fn get_counts(&self) -> (c: BalanceCounts)
        ensures
            counts_match_history(c, self.log@),
    {
        let k_mu = StrataKey { gender: Gender::Male, age_band: AgeBand::Under55 };
        let k_ma = StrataKey { gender: Gender::Male, age_band: AgeBand::AtLeast55 };
        let k_fu = StrataKey { gender: Gender::Female, age_band: AgeBand::Under55 };
        let k_fa = StrataKey { gender: Gender::Female, age_band: AgeBand::AtLeast55 };
        let c = BalanceCounts {
            male_under: StratumCounts {
                count_a: count_for(&self.log, k_mu, Group::A),
                count_b: count_for(&self.log, k_mu, Group::B),
            },
            male_at_least: StratumCounts {
                count_a: count_for(&self.log, k_ma, Group::A),
                count_b: count_for(&self.log, k_ma, Group::B),
            },
            female_under: StratumCounts {
                count_a: count_for(&self.log, k_fu, Group::A),
                count_b: count_for(&self.log, k_fu, Group::B),
            },
            female_at_least: StratumCounts {
                count_a: count_for(&self.log, k_fa, Group::A),
                count_b: count_for(&self.log, k_fa, Group::B),
            },
        };
        proof {
            assert forall|key: StrataKey|
                #[trigger] c.spec_get(key) == (StratumCounts {
                    count_a: count_records(self.log@, key, Group::A) as usize,
                    count_b: count_records(self.log@, key, Group::B) as usize,
                }) by {
                assert(key == k_mu || key == k_ma || key == k_fu || key == k_fa);
            }
        }
        c
    }

    /// Recomputes the global per-arm tallies from the history by a full scan.
    pub fn total_counts(&self) -> (t: (usize, usize))
        ensures
            t.0 as nat == total_records(self.log@, Group::A),
            t.1 as nat == total_records(self.log@, Group::B),
    {
        (total_for(&self.log, Group::A), total_for(&self.log, Group::B))
    }

    /// Refreshes the cached tallies from the history. The cache must always
    /// agree with a full rescan, and this re-establishes exactly that.
    pub fn recalc_counts(&mut self)
        ensures
            final(self).log@ == old(self).log@,
            final(self).block_size == old(self).block_size,
            final(self).bias_enabled == old(self).bias_enabled,
            final(self).randomizers@ == old(self).randomizers@,
            counts_match_history(final(self).counts_cache, old(self).log@),
            final(self).total_cache.0 as nat == total_records(old(self).log@, Group::A),
            final(self).total_cache.1 as nat == total_records(old(self).log@, Group::B),
    {
        self.counts_cache = self.get_counts();
        self.total_cache = self.total_counts();
    }

    /// Appends one completed allocation to the history; nothing else moves.
    /// The history is append-only: records are never changed or removed.
    pub fn add_record(&mut self, rec: AssignmentRecord)
        ensures
            final(self).log@ == old(self).log@.push(rec),
            final(self).block_size == old(self).block_size,
            final(self).bias_enabled == old(self).bias_enabled,
            final(self).randomizers@ == old(self).randomizers@,
            final(self).counts_cache == old(self).counts_cache,
            final(self).total_cache == old(self).total_cache,
    {
        self.log.push(rec);
    }

    /// Serves one allocation request: derives the key, reads the tallies from
    /// the history not yet including this request, decides the bias, lets the
    /// stratum's queue regenerate if forced or exhausted, and returns the
    /// drawn group. The caller appends the record and refreshes the caches.
    pub fn assign_next(&mut self, gender: Gender, age: i64) -> (r: Result<Group, AllocError>)
        ensures
            final(self).log@ == old(self).log@,
            final(self).block_size == old(self).block_size,
            final(self).bias_enabled == old(self).bias_enabled,
            final(self).counts_cache == old(self).counts_cache,
            final(self).total_cache == old(self).total_cache,
            !old(self).config_ok() ==> r == Err::<Group, AllocError>(
                AllocError::ConfigurationError,
            ) && *final(self) == *old(self),
            old(self).config_ok() && age < 0 ==> r == Err::<Group, AllocError>(
                AllocError::InvalidInput,
            ) && *final(self) == *old(self),
            old(self).config_ok() && age >= 0 ==> ({
                let key = StrataKey { gender, age_band: age_band_of(age as int) };
                let i = key_index_spec(key);
                let pre = old(self).randomizers@[i];
                let post = final(self).randomizers@[i];
                &&& r is Ok
                &&& final(self).config_ok()
                &&& final(self).randomizers@.len() == 4
                &&& forall|j: int|
                    0 <= j < 4 && j != i ==> final(self).randomizers@[j] == old(
                        self,
                    ).randomizers@[j]
                &&& match old(self).engine_bias(key) {
                    Some(_) => regen_then_pop(pre, post, r->Ok_0),
                    None => assign_transition(pre, post, r->Ok_0),
                }
            }),
    {
        if !self.check_config() {
            return Err(AllocError::ConfigurationError);
        }
        let key = match derive_key(gender, age) {
            Ok(k) => k,
            Err(e) => {
                return Err(e);
            },
        };
        // Witnesses that the history length, and so every tally, fits in usize.
        let _history_len: usize = self.log.len();
        let totals = self.total_counts();
        let counts = self.get_counts();
        let sc = counts.for_key(key);
        proof {
            lemma_count_records_le_len(self.log@, key, Group::A);
            lemma_count_records_le_len(self.log@, key, Group::B);
            lemma_total_records_le_len(self.log@, Group::A);
            lemma_total_records_le_len(self.log@, Group::B);
        }
        let bias = if self.bias_enabled {
            decide_bias(totals.0, totals.1, sc.count_a, sc.count_b, self.block_size)
        } else {
            None
        };
        proof {
            assert(bias == self.engine_bias(key));
        }
        let idx = key_index(key);
        if idx >= self.randomizers.len() {
            return Err(AllocError::UnknownStrata);
        }
        let ghost pre_rands = self.randomizers@;
        let mut rq = self.randomizers.remove(idx);
        let ghost pre = rq;
        let g = match bias {
            Some(p) => {
                rq.generate_block_with_priority(p);
                let ghost mid = rq;
                let g0 = rq.assign();
                proof {
                    lemma_regen_then_pop(pre, mid, rq, g0);
                }
                g0
            },
            None => rq.assign(),
        };
        self.randomizers.insert(idx, rq);
        proof {
            lemma_remove_insert_is_update(pre_rands, idx as int, rq);
            assert forall|j: int|
                0 <= j < 4 implies (#[trigger] self.randomizers@[j]).block_size == self.block_size
                && self.randomizers@[j].groups@ == ab_groups_spec() by {
                if j != idx {
                    assert(self.randomizers@[j] == pre_rands[j]);
                }
            }
        }
        Ok(g)
    }

    /// Changes the block size used for blocks generated after this call;
    /// labels already queued are unaffected. A size that cannot hold both
    /// arms is rejected, since it would corrupt the balance guarantee.
    pub fn set_block_size(&mut self, n: usize) -> (r: Result<(), AllocError>)
        ensures
            n < 2 ==> r == Err::<(), AllocError>(AllocError::ConfigurationError) && *final(self)
                == *old(self),
            n >= 2 ==> r == Ok::<(), AllocError>(()) && ({
                &&& final(self).block_size == n
                &&& final(self).bias_enabled == old(self).bias_enabled
                &&& final(self).log@ == old(self).log@
                &&& final(self).counts_cache == old(self).counts_cache
                &&& final(self).total_cache == old(self).total_cache
                &&& final(self).randomizers@.len() == old(self).randomizers@.len()
                &&& forall|j: int|
                    0 <= j < old(self).randomizers@.len()
                        ==> #[trigger] final(self).randomizers@[j] == with_block_size(
                        old(self).randomizers@[j],
                        n,
                    )
            }),
            n >= 2 && old(self).config_ok() ==> final(self).config_ok(),
    {
        if n < 2 {
            return Err(AllocError::ConfigurationError);
        }
        self.block_size = n;
        let m = self.randomizers.len();
        let mut i: usize = 0;
        while i < m
            invariant
                i <= m,
                m == self.randomizers@.len(),
                self.randomizers@.len() == old(self).randomizers@.len(),
                self.block_size == n,
                self.bias_enabled == old(self).bias_enabled,
                self.log@ == old(self).log@,
                self.counts_cache == old(self).counts_cache,
                self.total_cache == old(self).total_cache,
                forall|j: int|
                    0 <= j < i ==> #[trigger] self.randomizers@[j] == with_block_size(
                        old(self).randomizers@[j],
                        n,
                    ),
                forall|j: int|
                    i <= j < m ==> #[trigger] self.randomizers@[j] == old(self).randomizers@[j],
            decreases m - i,
        {
            let ghost pre_seq = self.randomizers@;
            let mut rq = self.randomizers.remove(i);
            rq.block_size = n;
            self.randomizers.insert(i, rq);
            proof {
                lemma_remove_insert_is_update(pre_seq, i as int, rq);
            }
            i = i + 1;
        }
        Ok(())
    }
}

/// `r` with its block size replaced: the groups and the queued labels stay
/// exactly as they are.
pub open spec fn with_block_size(r: BlockRandomizer, n: usize) -> BlockRandomizer {
    BlockRandomizer { block_size: n, groups: r.groups, queue: r.queue }
}

/// Checks that one queue agrees with the engine's configuration.
fn randomizer_ok(r: &BlockRandomizer, bs: usize) -> (ok: bool)
    ensures
        ok == (r.block_size == bs && r.groups@ == ab_groups_spec()),
{
    if r.block_size != bs {
        return false;
    }
    if r.groups.len() != 2 {
        proof {
            assert(r.groups@ != ab_groups_spec());
        }
        return false;
    }
    let ok = r.groups[0] == Group::A && r.groups[1] == Group::B;
    proof {
        if ok {
            assert(r.groups@ =~= ab_groups_spec());
        } else {
            if r.groups@ == ab_groups_spec() {
                assert(r.groups@[0] == Group::A);
                assert(r.groups@[1] == Group::B);
            }
        }
    }
    ok
}

/// Removing an element and inserting another at the same place is the same
/// as updating that place.
pub proof fn lemma_remove_insert_is_update<T>(s: Seq<T>, i: int, x: T)
    requires
        0 <= i < s.len(),
    ensures
        s.remove(i).insert(i, x) == s.update(i, x),
{
    assert(s.remove(i).insert(i, x) =~= s.update(i, x));
}

impl Default for App {
    /// A fresh engine with the default block size of 4 and an empty history.
    fn default() -> (r: Self)
        ensures
            r.config_ok(),
            r.block_size == 4,
            r.log@ == Seq::<AssignmentRecord>::empty(),
    {
        let r = App::new(4);
        r.unwrap()
    }
}

} // verus!
