use vstd::prelude::*;

verus! {

use crate::strata::Group;

/// How many entries of `s` carry the label `g`.
pub open spec fn count_group(s: Seq<Group>, g: Group) -> nat
    decreases s.len(),
{
    if s.len() == 0 {
        0
    } else {
        count_group(s.drop_last(), g) + if s.last() == g {
            1nat
        } else {
            0nat
        }
    }
}

/// The block obtained by cycling through `groups` in order until `n` labels
/// have been collected. When `n` does not divide evenly, the earliest groups
/// in iteration order receive the extra slot.
pub open spec fn cycle_block(groups: Seq<Group>, n: nat) -> Seq<Group>
    decreases n,
{
    if n == 0 {
        Seq::empty()
    } else {
        cycle_block(groups, (n - 1) as nat).push(
            groups[((n - 1) as int) % (groups.len() as int)],
        )
    }
}

/// The fixed two-group configuration of the engine: the arms A and B,
/// in this iteration order.
pub open spec fn ab_groups_spec() -> Seq<Group> {
    seq![Group::A, Group::B]
}

pub proof fn lemma_cycle_block_len(groups: Seq<Group>, n: nat)
    ensures
        cycle_block(groups, n).len() == n,
    decreases n,
{
    if n > 0 {
        lemma_cycle_block_len(groups, (n - 1) as nat);
    }
}

pub proof fn lemma_count_group_push(s: Seq<Group>, x: Group, g: Group)
    ensures
        count_group(s.push(x), g) == count_group(s, g) + if x == g {
            1nat
        } else {
            0nat
        },
{
    assert(s.push(x).drop_last() =~= s);
    assert(s.push(x).last() == x);
}

pub proof fn lemma_count_group_take_step(s: Seq<Group>, i: int, g: Group)
    requires
        0 <= i < s.len(),
    ensures
        count_group(s.take(i + 1), g) == count_group(s.take(i), g) + if s[i] == g {
            1nat
        } else {
            0nat
        },
{
    assert(s.take(i + 1).drop_last() =~= s.take(i));
    assert(s.take(i + 1).last() == s[i]);
}

/// Every label is A or B, so the two counts exhaust the sequence.
pub proof fn lemma_count_group_total(s: Seq<Group>)
    ensures
        count_group(s, Group::A) + count_group(s, Group::B) == s.len(),
    decreases s.len(),
{
    if s.len() > 0 {
        lemma_count_group_total(s.drop_last());
        assert(s.last() is A || s.last() is B);
    }
}

pub proof fn lemma_count_group_concat(s: Seq<Group>, t: Seq<Group>, g: Group)
    ensures
        count_group(s + t, g) == count_group(s, g) + count_group(t, g),
    decreases t.len(),
{
    if t.len() == 0 {
        assert(s + t =~= s);
    } else {
        lemma_count_group_concat(s, t.drop_last(), g);
        assert((s + t).drop_last() =~= s + t.drop_last());
        assert((s + t).last() == t.last());
    }
}

/// Counting occurrences agrees with the multiset view of the sequence.
pub proof fn lemma_count_group_multiset(s: Seq<Group>, g: Group)
    ensures
        count_group(s, g) == s.to_multiset().count(g),
    decreases s.len(),
{
    broadcast use vstd::seq_lib::group_to_multiset_ensures;

    if s.len() == 0 {
        vstd::multiset::axiom_count_le_len(s.to_multiset(), g);
    } else {
        lemma_count_group_multiset(s.drop_last(), g);
        assert(s =~= s.drop_last().push(s.last()));
        let m = s.drop_last().to_multiset();
        let x = s.last();
        vstd::multiset::lemma_insert_increases_count_by_1(m, x);
        vstd::multiset::lemma_insert_other_elements_unchanged(m, x, g);
        assert(s.to_multiset() == m.insert(x));
    }
}

/// Two sequences of labels with the same A count and the same B count hold
/// the same multiset of labels.
pub proof fn lemma_multiset_eq_from_counts(s: Seq<Group>, t: Seq<Group>)
    requires
        count_group(s, Group::A) == count_group(t, Group::A),
        count_group(s, Group::B) == count_group(t, Group::B),
    ensures
        s.to_multiset() == t.to_multiset(),
{
    assert forall|g: Group| s.to_multiset().count(g) == t.to_multiset().count(g) by {
        lemma_count_group_multiset(s, g);
        lemma_count_group_multiset(t, g);
        assert(g is A || g is B);
    }
    assert(s.to_multiset() =~= t.to_multiset());
}

pub proof fn lemma_not_contains_count_zero(s: Seq<Group>, g: Group)
    requires
        !s.contains(g),
    ensures
        count_group(s, g) == 0,
    decreases s.len(),
{
    if s.len() > 0 {
        assert(!s.drop_last().contains(g)) by {
            if s.drop_last().contains(g) {
                let i = choose|i: int| 0 <= i < s.drop_last().len() && s.drop_last()[i] == g;
                assert(s[i] == g);
            }
        }
        lemma_not_contains_count_zero(s.drop_last(), g);
    }
}

/// In a duplicate-free sequence a contained label occurs exactly once.
pub proof fn lemma_distinct_count_one(s: Seq<Group>, g: Group)
    requires
        s.no_duplicates(),
        s.contains(g),
    ensures
        count_group(s, g) == 1,
    decreases s.len(),
{
    let last = s.len() - 1;
    if s.last() == g {
        assert(!s.drop_last().contains(g)) by {
            if s.drop_last().contains(g) {
                let i = choose|i: int| 0 <= i < s.drop_last().len() && s.drop_last()[i] == g;
                assert(s[i] == s[last]);
            }
        }
        lemma_not_contains_count_zero(s.drop_last(), g);
    } else {
        let i = choose|i: int| 0 <= i < s.len() && s[i] == g;
        assert(s.drop_last()[i] == g);
        assert(s.drop_last().contains(g));
        lemma_distinct_count_one(s.drop_last(), g);
    }
}

/// The exact composition of a cycled block: each group occurs once per full
/// pass, and the groups at the head of the iteration order pick up the
/// remainder.
pub proof fn lemma_cycle_block_count(groups: Seq<Group>, n: nat, g: Group)
    requires
        groups.len() > 0,
    ensures
        count_group(cycle_block(groups, n), g) == (n as int / groups.len() as int) * (count_group(
            groups,
            g,
        ) as int) + count_group(groups.take((n as int) % (groups.len() as int)), g),
    decreases n,
{
    let len = groups.len() as int;
    let occ = count_group(groups, g) as int;
    if n == 0 {
        assert(groups.take(0) =~= Seq::empty());
        assert(0int / len == 0 && 0int % len == 0) by (nonlinear_arith)
            requires len > 0;
    } else {
        let m = (n - 1) as nat;
        let mi = m as int;
        lemma_cycle_block_count(groups, m, g);
        lemma_count_group_push(cycle_block(groups, m), groups[mi % len], g);
        let q = mi / len;
        let r = mi % len;
        vstd::arithmetic::div_mod::lemma_fundamental_div_mod(mi, len);
        assert(0 <= r < len) by (nonlinear_arith)
            requires len > 0, r == mi % len, mi >= 0;
        lemma_count_group_take_step(groups, r, g);
        assert(len * q == q * len) by (nonlinear_arith);
        if r < len - 1 {
            assert(mi + 1 == q * len + (r + 1));
            vstd::arithmetic::div_mod::lemma_fundamental_div_mod_converse_div(mi + 1, len, q, r + 1);
            vstd::arithmetic::div_mod::lemma_fundamental_div_mod_converse_mod(mi + 1, len, q, r + 1);
        } else {
            assert((q + 1) * len == q * len + len) by (nonlinear_arith);
            assert(mi + 1 == (q + 1) * len + 0);
            vstd::arithmetic::div_mod::lemma_fundamental_div_mod_converse_div(mi + 1, len, q + 1, 0);
            vstd::arithmetic::div_mod::lemma_fundamental_div_mod_converse_mod(mi + 1, len, q + 1, 0);
            assert(groups.take(len) =~= groups);
            assert(groups.take(0) =~= Seq::empty());
            assert((q + 1) * occ == q * occ + occ) by (nonlinear_arith);
        }
    }
}

} // verus!
