use party_rooms::bag::{move_pick, shuffled, CardBag, MAX_DOMAIN};

fn sorted(mut cards: Vec<u16>) -> Vec<u16> {
    cards.sort();
    cards
}

fn rising(n: usize) -> Vec<u16> {
    (0..n).map(|i| i as u16).collect()
}

#[test]
fn move_pick_takes_the_picked_card_to_the_end_of_the_output() {
    let mut pool: Vec<u16> = vec![10, 11, 12, 13];
    let mut out: Vec<u16> = vec![7];
    move_pick(&mut pool, &mut out, 1);
    assert_eq!(pool, vec![10, 12, 13]);
    assert_eq!(out, vec![7, 11]);
    move_pick(&mut pool, &mut out, 2);
    assert_eq!(pool, vec![10, 12]);
    assert_eq!(out, vec![7, 11, 13]);
    move_pick(&mut pool, &mut out, 0);
    assert_eq!(pool, vec![12]);
    assert_eq!(out, vec![7, 11, 13, 10]);
}

#[test]
fn a_shuffle_holds_every_id_once() {
    let mut rng = rand::thread_rng();
    for n in [0usize, 1, 2, 3, 8, 50, 257] {
        let cards = shuffled(n, &mut rng);
        assert_eq!(cards.len(), n);
        assert_eq!(sorted(cards), rising(n));
    }
}

#[test]
fn a_shuffle_of_the_widest_domain_holds_every_id_once() {
    let mut rng = rand::thread_rng();
    let cards = shuffled(MAX_DOMAIN, &mut rng);
    assert_eq!(sorted(cards), rising(MAX_DOMAIN));
}

#[test]
fn shuffles_differ_from_one_another() {
    let mut rng = rand::thread_rng();
    let first = shuffled(64, &mut rng);
    let mut all_same = true;
    for _ in 0..8 {
        if shuffled(64, &mut rng) != first {
            all_same = false;
        }
    }
    assert!(!all_same);
}

#[test]
fn a_new_bag_is_empty_and_knows_its_domain() {
    let bag = CardBag::new(12);
    assert_eq!(bag.domain_size(), 12);
    assert_eq!(bag.remaining(), 0);
}

#[test]
fn drawing_the_whole_domain_yields_each_id_once() {
    let mut rng = rand::thread_rng();
    for n in [1usize, 2, 5, 8, 31] {
        let mut bag = CardBag::new(n);
        let mut drawn = Vec::new();
        for k in 0..n {
            drawn.push(bag.draw(&mut rng));
            assert_eq!(bag.remaining(), n - 1 - k);
        }
        assert_eq!(sorted(drawn), rising(n));
        assert_eq!(bag.remaining(), 0);
    }
}

#[test]
fn the_draw_after_a_full_cycle_starts_a_fresh_shuffle() {
    let mut rng = rand::thread_rng();
    let n = 6usize;
    let mut bag = CardBag::new(n);
    for _ in 0..n {
        bag.draw(&mut rng);
    }
    assert_eq!(bag.remaining(), 0);
    let next = bag.draw(&mut rng);
    assert!((next as usize) < n);
    assert_eq!(bag.remaining(), n - 1);
    let mut second = vec![next];
    for _ in 1..n {
        second.push(bag.draw(&mut rng));
    }
    assert_eq!(sorted(second), rising(n));
}

#[test]
fn a_bag_of_one_card_always_deals_it() {
    let mut rng = rand::thread_rng();
    let mut bag = CardBag::new(1);
    for _ in 0..5 {
        assert_eq!(bag.draw(&mut rng), 0);
        assert_eq!(bag.remaining(), 0);
    }
}

#[test]
fn ensure_filled_draws_up_to_the_target() {
    let mut rng = rand::thread_rng();
    let mut bag = CardBag::new(20);
    let mut hand: Vec<u16> = Vec::new();
    bag.ensure_filled(&mut hand, 8, &mut rng);
    assert_eq!(hand.len(), 8);
    assert_eq!(bag.remaining(), 12);
    let mut distinct = hand.clone();
    distinct.sort();
    distinct.dedup();
    assert_eq!(distinct.len(), 8);
    assert!(hand.iter().all(|&c| (c as usize) < 20));
}

#[test]
fn ensure_filled_keeps_what_is_held_in_front() {
    let mut rng = rand::thread_rng();
    let mut bag = CardBag::new(20);
    let mut hand: Vec<u16> = vec![3, 3, 19];
    bag.ensure_filled(&mut hand, 8, &mut rng);
    assert_eq!(hand.len(), 8);
    assert_eq!(&hand[..3], &[3, 3, 19]);
    assert_eq!(bag.remaining(), 15);
}

#[test]
fn ensure_filled_leaves_a_full_collection_alone() {
    let mut rng = rand::thread_rng();
    let mut bag = CardBag::new(20);
    let mut hand: Vec<u16> = vec![1, 2, 3];
    bag.ensure_filled(&mut hand, 3, &mut rng);
    assert_eq!(hand, vec![1, 2, 3]);
    assert_eq!(bag.remaining(), 0);
    let mut big: Vec<u16> = vec![0, 1, 2, 3, 4];
    bag.ensure_filled(&mut big, 3, &mut rng);
    assert_eq!(big, vec![0, 1, 2, 3, 4]);
    assert_eq!(bag.remaining(), 0);
}

#[test]
fn ensure_filled_refills_the_pool_in_passing() {
    let mut rng = rand::thread_rng();
    let mut bag = CardBag::new(3);
    let mut hand: Vec<u16> = Vec::new();
    bag.ensure_filled(&mut hand, 8, &mut rng);
    assert_eq!(hand.len(), 8);
    assert_eq!(sorted(hand[0..3].to_vec()), rising(3));
    assert_eq!(sorted(hand[3..6].to_vec()), rising(3));
    assert_eq!(bag.remaining(), 1);
}

#[test]
fn a_refill_may_deal_a_card_that_is_still_held() {
    let mut rng = rand::thread_rng();
    let mut bag = CardBag::new(2);
    let mut hand: Vec<u16> = Vec::new();
    bag.ensure_filled(&mut hand, 3, &mut rng);
    assert_eq!(hand.len(), 3);
    assert!(hand[2] == hand[0] || hand[2] == hand[1]);
}
