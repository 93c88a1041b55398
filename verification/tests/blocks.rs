use block_randomizer::block::BlockRandomizer;
use block_randomizer::strata::Group;

fn queue_counts(r: &BlockRandomizer) -> (usize, usize) {
    let mut a = 0;
    let mut b = 0;
    for g in r.queue.iter() {
        match g {
            Group::A => a += 1,
            Group::B => b += 1,
        }
    }
    (a, b)
}

#[test]
fn block_composition_even() {
    let r = BlockRandomizer::new(4, vec![Group::A, Group::B]);
    assert_eq!(r.queue.len(), 4);
    let (a, b) = queue_counts(&r);
    assert_eq!(a, 2);
    assert_eq!(b, 2);
}

#[test]
fn block_composition_single_group() {
    let r = BlockRandomizer::new(3, vec![Group::B]);
    assert_eq!(r.queue.len(), 3);
    let (a, b) = queue_counts(&r);
    assert_eq!(a, 0);
    assert_eq!(b, 3);
}

#[test]
fn block_composition_uneven_favors_earliest() {
    // 5 slots over two groups: the earliest group in iteration order (A)
    // receives the extra slot.
    let r = BlockRandomizer::new(5, vec![Group::A, Group::B]);
    assert_eq!(r.queue.len(), 5);
    let (a, b) = queue_counts(&r);
    assert_eq!(a, 3);
    assert_eq!(b, 2);
}

#[test]
fn assign_decrements_queue() {
    let mut r = BlockRandomizer::new(4, vec![Group::A, Group::B]);
    assert_eq!(r.queue.len(), 4);
    r.assign();
    assert_eq!(r.queue.len(), 3);
    r.assign();
    r.assign();
    r.assign();
    assert_eq!(r.queue.len(), 0);
    // An empty queue regenerates one whole block before the draw.
    r.assign();
    assert_eq!(r.queue.len(), 3);
}

#[test]
fn unbiased_window_is_balanced() {
    // Eight consecutive draws with block size 4 consume exactly two whole
    // blocks, so the two arms appear equally often over the window.
    let mut r = BlockRandomizer::new(4, vec![Group::A, Group::B]);
    let mut a = 0;
    let mut b = 0;
    for _ in 0..8 {
        match r.assign() {
            Group::A => a += 1,
            Group::B => b += 1,
        }
    }
    assert_eq!(a, 4);
    assert_eq!(b, 4);
}

#[test]
fn priority_block_keeps_composition() {
    // The priority reorder happens before the shuffle, so the delivered
    // composition is the same as in the unbiased case.
    let mut r = BlockRandomizer::new(4, vec![Group::A, Group::B]);
    r.generate_block_with_priority(Group::B);
    assert_eq!(r.queue.len(), 8);
    let (a, b) = queue_counts(&r);
    assert_eq!(a, 4);
    assert_eq!(b, 4);
}

#[test]
fn generate_block_appends_at_tail() {
    let mut r = BlockRandomizer::new(2, vec![Group::A, Group::B]);
    let pending: Vec<Group> = r.queue.iter().copied().collect();
    r.generate_block();
    assert_eq!(r.queue.len(), 4);
    let after: Vec<Group> = r.queue.iter().copied().collect();
    assert_eq!(&after[..2], &pending[..]);
}

#[test]
fn block_size_change_affects_only_later_blocks() {
    let mut r = BlockRandomizer::new(2, vec![Group::A, Group::B]);
    r.block_size = 6;
    // The queued block of two labels is served untouched.
    r.assign();
    r.assign();
    assert_eq!(r.queue.len(), 0);
    // The next refill uses the new size.
    r.assign();
    assert_eq!(r.queue.len(), 5);
    let (a, b) = queue_counts(&r);
    assert_eq!(a + b, 5);
}
