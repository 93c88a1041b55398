use vstd::prelude::*;
use std::collections::VecDeque;
use rand::seq::SliceRandom;

verus! {

use crate::strata::Group;
use crate::counting::{
    count_group, cycle_block, ab_groups_spec, lemma_cycle_block_len, lemma_count_group_push,
    lemma_count_group_take_step, lemma_count_group_total, lemma_count_group_concat,
    lemma_count_group_multiset, lemma_multiset_eq_from_counts, lemma_distinct_count_one,
    lemma_cycle_block_count,
};

/// The thread-local generator of the rand crate; opaque to verification.
#[verifier::external_type_specification]
#[verifier::external_body]
pub struct ExThreadRng(rand::rngs::ThreadRng);

/// Relies on rand::thread_rng: it hands back a handle to the thread-local
/// generator. Nothing is promised of the draws it will produce.
#[verifier::external_body]
fn fresh_rng() -> rand::rngs::ThreadRng {
    rand::thread_rng()
}

/// Relies on rand's SliceRandom::shuffle: a Fisher-Yates pass that permutes
/// the slice in place by swaps, so exactly the same labels remain; which
/// permutation comes out depends on the generator's state, so nothing more
/// is promised of the order.
#[verifier::external_body]
fn shuffle_groups(block: &mut Vec<Group>, rng: &mut rand::rngs::ThreadRng)
    ensures
        final(block)@.to_multiset() == old(block)@.to_multiset(),
        final(block)@.len() == old(block)@.len(),
{
    block.shuffle(rng);
}

/// One FIFO of pending labels for a single stratum. It refills itself with a
/// freshly generated block whenever it runs out.
#[derive(Clone)]
pub struct BlockRandomizer {
    pub block_size: usize,
    pub groups: Vec<Group>,
    pub queue: VecDeque<Group>,
}

impl BlockRandomizer {
    /// The configuration lets every refill produce at least one label, so a
    /// draw can never fail.
    pub open spec fn wf(self) -> bool {
        self.groups@.len() >= 1 && self.block_size >= 1
    }
}

/// The queue `post` is `pre` with one freshly generated block of `bs` labels
/// over `groups` appended at its tail: the pending labels stay in place and
/// the new block arrives behind them, as some permutation of the cycled
/// composition.
pub open spec fn generated_extend(
    pre: Seq<Group>,
    post: Seq<Group>,
    groups: Seq<Group>,
    bs: nat,
) -> bool {
    &&& post.len() == pre.len() + bs
    &&& post.take(pre.len() as int) == pre
    &&& post.skip(pre.len() as int).to_multiset() == cycle_block(groups, bs).to_multiset()
}

/// How one draw changes a queue: the front label leaves; if the queue was
/// empty, a fresh block is generated first, so the drawn label and the new
/// queue together form one whole generated block.
pub open spec fn assign_transition(pre: BlockRandomizer, post: BlockRandomizer, g: Group) -> bool {
    &&& post.block_size == pre.block_size
    &&& post.groups@ == pre.groups@
    &&& if pre.queue@.len() > 0 {
        g == pre.queue@[0] && post.queue@ == pre.queue@.drop_first()
    } else {
        post.queue@.len() == pre.block_size - 1 && (seq![g] + post.queue@).to_multiset()
            == cycle_block(pre.groups@, pre.block_size as nat).to_multiset()
    }
}

/// How a forced regeneration followed by one draw changes a queue: a fresh
/// block is appended even if labels were still pending, then the front label
/// leaves. Putting the drawn label back in front restores the pending labels
/// followed by one whole generated block.
pub open spec fn regen_then_pop(pre: BlockRandomizer, post: BlockRandomizer, g: Group) -> bool {
    &&& post.block_size == pre.block_size
    &&& post.groups@ == pre.groups@
    &&& post.queue@.len() == pre.queue@.len() + pre.block_size - 1
    &&& (seq![g] + post.queue@).take(pre.queue@.len() as int) == pre.queue@
    &&& (seq![g] + post.queue@).skip(pre.queue@.len() as int).to_multiset() == cycle_block(
        pre.groups@,
        pre.block_size as nat,
    ).to_multiset()
}

impl BlockRandomizer {
    /// Builds the unshuffled composition of one block by cycling through the
    /// groups in order.
    fn build_cycle_block(&self) -> (block: Vec<Group>)
        requires
            self.wf(),
        ensures
            block@ == cycle_block(self.groups@, self.block_size as nat),
    {
        let len = self.groups.len();
        let mut block: Vec<Group> = Vec::new();
        let mut i: usize = 0;
        while i < self.block_size
            invariant
                i <= self.block_size,
                self.wf(),
                len == self.groups@.len(),
                block@ == cycle_block(self.groups@, i as nat),
            decreases self.block_size - i,
        {
            let idx = i % len;
            proof {
                assert((i as int) % (len as int) < len as int) by (nonlinear_arith)
                    requires
                        len as int > 0,
                        i >= 0,
                ;
            }
            block.push(self.groups[idx]);
            i = i + 1;
        }
        block
    }

    /// Appends every label of `block` to the tail of the queue, in order.
    fn enqueue_block(&mut self, block: Vec<Group>)
        ensures
            final(self).block_size == old(self).block_size,
            final(self).groups@ == old(self).groups@,
            final(self).queue@ == old(self).queue@ + block@,
    {
        let n = block.len();
        let ghost q0 = self.queue@;
        proof {
            assert(q0 + block@.take(0) =~= q0);
        }
        let mut j: usize = 0;
        while j < n
            invariant
                j <= n,
                n == block@.len(),
                self.block_size == old(self).block_size,
                self.groups@ == old(self).groups@,
                self.queue@ == q0 + block@.take(j as int),
            decreases n - j,
        {
            proof {
                assert(block@.take(j as int + 1) =~= block@.take(j as int).push(block@[j as int]));
                assert((q0 + block@.take(j as int)).push(block@[j as int]) =~= (q0 + block@.take(
                    j as int + 1,
                )));
            }
            let x = block[j];
            self.queue.push_back(x);
            j = j + 1;
        }
        proof {
            assert(block@.take(n as int) =~= block@);
        }
    }

    /// Creates the queue and immediately fills it with its first block.
    pub fn new(block_size: usize, groups: Vec<Group>) -> (r: BlockRandomizer)
        requires
            block_size >= 1,
            groups@.len() >= 1,
        ensures
            r.wf(),
            r.block_size == block_size,
            r.groups@ == groups@,
            r.queue@.len() == block_size,
            r.queue@.to_multiset() == cycle_block(groups@, block_size as nat).to_multiset(),
    {
        let mut r = BlockRandomizer { block_size, groups, queue: VecDeque::new() };
        r.generate_block();
        proof {
            assert(r.queue@.skip(0) =~= r.queue@);
        }
        r
    }

    /// Generates one block (balanced composition, then a uniform shuffle) and
    /// appends it to the queue.
    pub fn generate_block(&mut self)
        requires
            old(self).wf(),
        ensures
            final(self).wf(),
            final(self).block_size == old(self).block_size,
            final(self).groups@ == old(self).groups@,
            generated_extend(
                old(self).queue@,
                final(self).queue@,
                old(self).groups@,
                old(self).block_size as nat,
            ),
    {
        let mut block = self.build_cycle_block();
        proof {
            lemma_cycle_block_len(self.groups@, self.block_size as nat);
        }
        let mut rng = fresh_rng();
        shuffle_groups(&mut block, &mut rng);
        let ghost q0 = self.queue@;
        self.enqueue_block(block);
        proof {
            assert((q0 + block@).take(q0.len() as int) =~= q0);
            assert((q0 + block@).skip(q0.len() as int) =~= block@);
        }
    }

    /// Generates one block with the under-represented group moved to the
    /// front before the shuffle, and appends it to the queue. The shuffle
    /// erases the ordering step, so the delivered composition is the same as
    /// in the unbiased case; this neutrality is deliberate.
    pub fn generate_block_with_priority(&mut self, priority: Group)
        requires
            old(self).wf(),
        ensures
            final(self).wf(),
            final(self).block_size == old(self).block_size,
            final(self).groups@ == old(self).groups@,
            generated_extend(
                old(self).queue@,
                final(self).queue@,
                old(self).groups@,
                old(self).block_size as nat,
            ),
    {
        let base = self.build_cycle_block();
        proof {
            lemma_cycle_block_len(self.groups@, self.block_size as nat);
        }
        let mut block = reorder_priority_first(&base, priority);
        let mut rng = fresh_rng();
        shuffle_groups(&mut block, &mut rng);
        let ghost q0 = self.queue@;
        self.enqueue_block(block);
        proof {
            assert((q0 + block@).take(q0.len() as int) =~= q0);
            assert((q0 + block@).skip(q0.len() as int) =~= block@);
        }
    }

    /// Draws the next label: regenerates first if the queue is exhausted,
    /// then removes and returns the front element.
    pub fn assign(&mut self) -> (g: Group)
        requires
            old(self).wf(),
        ensures
            final(self).wf(),
            assign_transition(*old(self), *final(self), g),
    {
        if self.queue.len() == 0 {
            self.generate_block();
            proof {
                assert(self.queue@.skip(0) =~= self.queue@);
            }
        }
        let ghost q1 = self.queue@;
        let g = self.queue.pop_front().unwrap();
        proof {
            assert(self.queue@ =~= q1.drop_first());
            if old(self).queue@.len() == 0 {
                assert(seq![g] + self.queue@ =~= q1);
            }
        }
        g
    }
}

/// Reorders a block so that the labels equal to `priority` come first. Only
/// the order changes: the multiset of labels is exactly that of the input.
fn reorder_priority_first(block: &Vec<Group>, priority: Group) -> (r: Vec<Group>)
    ensures
        r@.len() == block@.len(),
        r@.to_multiset() == block@.to_multiset(),
        forall|t: int| 0 <= t < count_group(block@, priority) ==> r@[t] == priority,
{
    let other: Group = match priority {
        Group::A => Group::B,
        Group::B => Group::A,
    };
    let n = block.len();
    let mut np: usize = 0;
    let mut i: usize = 0;
    while i < n
        invariant
            i <= n,
            n == block@.len(),
            np as nat == count_group(block@.take(i as int), priority),
            np <= i,
        decreases n - i,
    {
        proof {
            lemma_count_group_take_step(block@, i as int, priority);
        }
        if block[i] == priority {
            np = np + 1;
        }
        i = i + 1;
    }
    proof {
        assert(block@.take(n as int) =~= block@);
    }
    let mut r: Vec<Group> = Vec::new();
    let mut j: usize = 0;
    while j < np
        invariant
            j <= np,
            np <= n,
            other != priority,
            r@.len() == j,
            count_group(r@, priority) == j as nat,
            count_group(r@, other) == 0,
            forall|t: int| 0 <= t < j ==> r@[t] == priority,
        decreases np - j,
    {
        proof {
            lemma_count_group_push(r@, priority, priority);
            lemma_count_group_push(r@, priority, other);
        }
        r.push(priority);
        j = j + 1;
    }
    let mut k: usize = 0;
    while k < n - np
        invariant
            k <= n - np,
            np <= n,
            other != priority,
            r@.len() == np + k,
            count_group(r@, priority) == np as nat,
            count_group(r@, other) == k as nat,
            forall|t: int| 0 <= t < np ==> r@[t] == priority,
        decreases n - np - k,
    {
        proof {
            lemma_count_group_push(r@, other, priority);
            lemma_count_group_push(r@, other, other);
        }
        r.push(other);
        k = k + 1;
    }
    proof {
        lemma_count_group_total(r@);
        lemma_count_group_total(block@);
        assert(priority is A || priority is B);
        lemma_multiset_eq_from_counts(r@, block@);
    }
    r
}

/// Connects a forced regeneration and the draw that follows it: together
/// they amount to appending one generated block and removing the front.
pub proof fn lemma_regen_then_pop(
    pre: BlockRandomizer,
    mid: BlockRandomizer,
    post: BlockRandomizer,
    g: Group,
)
    requires
        pre.block_size >= 1,
        mid.block_size == pre.block_size,
        mid.groups@ == pre.groups@,
        generated_extend(pre.queue@, mid.queue@, pre.groups@, pre.block_size as nat),
        assign_transition(mid, post, g),
    ensures
        regen_then_pop(pre, post, g),
{
    let q1 = mid.queue@;
    assert(q1.len() >= 1);
    assert(seq![g] + post.queue@ =~= q1);
    assert((seq![g] + post.queue@).take(pre.queue@.len() as int) == pre.queue@);
}

/// Facts about the fixed two-group configuration: two distinct labels, each
/// of the arms present.
pub proof fn lemma_ab_groups_facts()
    ensures
        ab_groups_spec().len() == 2,
        ab_groups_spec().no_duplicates(),
        ab_groups_spec().contains(Group::A),
        ab_groups_spec().contains(Group::B),
{
    assert(ab_groups_spec()[0] == Group::A);
    assert(ab_groups_spec()[1] == Group::B);
    assert forall|i: int, j: int|
        0 <= i < 2 && 0 <= j < 2 && i != j implies ab_groups_spec()[i]
        != ab_groups_spec()[j] by {
        assert(i == 0 || i == 1);
    }
}

/// Law: a generated block whose size is a multiple of the number of groups
/// holds each group exactly blockSize / |groups| times, and its length is
/// exactly blockSize. `block` stands for any outcome of generation, which
/// delivers some permutation of the cycled composition.
pub proof fn lemma_block_composition(block: Seq<Group>, groups: Seq<Group>, bs: nat, g: Group)
    requires
        groups.len() > 0,
        groups.no_duplicates(),
        groups.contains(g),
        bs % groups.len() == 0,
        block.to_multiset() == cycle_block(groups, bs).to_multiset(),
    ensures
        block.len() == bs,
        count_group(block, g) == bs / groups.len(),
{
    broadcast use vstd::seq_lib::group_to_multiset_ensures;

    lemma_cycle_block_len(groups, bs);
    assert(block.len() == block.to_multiset().len());
    assert(cycle_block(groups, bs).len() == cycle_block(groups, bs).to_multiset().len());
    lemma_count_group_multiset(block, g);
    lemma_count_group_multiset(cycle_block(groups, bs), g);
    lemma_distinct_count_one(groups, g);
    lemma_cycle_block_count(groups, bs, g);
    assert(groups.take(0) =~= Seq::empty());
}

/// Any outcome of generating one block over the two arms with an even size
/// is internally balanced: A and B each fill half the slots.
pub proof fn lemma_ab_block_balanced(block: Seq<Group>, bs: nat)
    requires
        bs % 2 == 0,
        block.to_multiset() == cycle_block(ab_groups_spec(), bs).to_multiset(),
    ensures
        block.len() == bs,
        count_group(block, Group::A) == bs / 2,
        count_group(block, Group::B) == bs / 2,
{
    lemma_ab_groups_facts();
    lemma_block_composition(block, ab_groups_spec(), bs, Group::A);
    lemma_block_composition(block, ab_groups_spec(), bs, Group::B);
}

/// Law: over any window of draws that exactly consumes whole unbiased blocks
/// of even size on one stratum, A and B are drawn equally often. Each element
/// of `blocks` stands for one outcome of block generation.
pub proof fn lemma_unbiased_window_balanced(blocks: Seq<Seq<Group>>, bs: nat)
    requires
        bs % 2 == 0,
        forall|i: int|
            0 <= i < blocks.len() ==> (#[trigger] blocks[i]).to_multiset() == cycle_block(
                ab_groups_spec(),
                bs,
            ).to_multiset(),
    ensures
        blocks.flatten().len() == blocks.len() * bs,
        count_group(blocks.flatten(), Group::A) == count_group(blocks.flatten(), Group::B),
    decreases blocks.len(),
{
    if blocks.len() == 0 {
        assert(blocks.flatten() =~= Seq::empty());
    } else {
        let first = blocks[0];
        let rest = blocks.drop_first();
        assert(blocks.flatten() == first + rest.flatten());
        assert forall|i: int|
            0 <= i < rest.len() implies (#[trigger] rest[i]).to_multiset() == cycle_block(
            ab_groups_spec(),
            bs,
        ).to_multiset() by {
            assert(rest[i] == blocks[i + 1]);
        }
        lemma_unbiased_window_balanced(rest, bs);
        lemma_ab_block_balanced(first, bs);
        lemma_count_group_concat(first, rest.flatten(), Group::A);
        lemma_count_group_concat(first, rest.flatten(), Group::B);
        assert(blocks.len() * bs == (blocks.len() - 1) * bs + bs) by (nonlinear_arith);
    }
}

} // verus!
