use neural_engine::training::{batches, epoch_batches, reports_loss, shuffle_order};

fn is_permutation(order: &[usize], n: usize) -> bool {
    let mut seen = vec![false; n];
    if order.len() != n {
        return false;
    }
    for &k in order {
        if k >= n || seen[k] {
            return false;
        }
        seen[k] = true;
    }
    true
}

#[test]
fn shuffle_with_zero_draws() {
    // i = 2 swaps with 0, then i = 1 swaps with 0
    assert_eq!(shuffle_order(3, &vec![0, 0, 0]), vec![1, 2, 0]);
}

#[test]
fn shuffle_with_self_draws_keeps_order() {
    // draws[i] % (i + 1) == i: every step exchanges an entry with itself
    assert_eq!(shuffle_order(4, &vec![0, 1, 2, 3]), vec![0, 1, 2, 3]);
    assert_eq!(shuffle_order(4, &vec![9, 3, 5, 7]), vec![0, 1, 2, 3]);
}

#[test]
fn shuffle_reduces_draws_modulo_position() {
    // i = 3: 10 % 4 = 2 -> [0,1,3,2]; i = 2: 4 % 3 = 1 -> [0,3,1,2]; i = 1: 7 % 2 = 1 -> same
    assert_eq!(shuffle_order(4, &vec![0, 7, 4, 10]), vec![0, 3, 1, 2]);
}

#[test]
fn shuffle_of_small_counts() {
    assert_eq!(shuffle_order(0, &vec![]), Vec::<usize>::new());
    assert_eq!(shuffle_order(1, &vec![123]), vec![0]);
    assert_eq!(shuffle_order(2, &vec![0, 1]), vec![0, 1]);
    assert_eq!(shuffle_order(2, &vec![0, 2]), vec![1, 0]);
}

#[test]
fn shuffle_is_always_a_permutation() {
    let mut x: usize = 12345;
    for n in 0..40usize {
        let draws: Vec<usize> = (0..n)
            .map(|_| {
                x = x.wrapping_mul(6364136223846793005).wrapping_add(1442695040888963407);
                x >> 7
            })
            .collect();
        let order = shuffle_order(n, &draws);
        assert!(is_permutation(&order, n));
    }
    let big = vec![usize::MAX; 10];
    assert!(is_permutation(&shuffle_order(10, &big), 10));
}

#[test]
fn batches_split_with_short_last() {
    let order = vec![4, 0, 3, 1, 2];
    assert_eq!(batches(&order, 2), vec![vec![4, 0], vec![3, 1], vec![2]]);
}

#[test]
fn batches_exact_and_oversized() {
    let order = vec![1, 0, 3, 2];
    assert_eq!(batches(&order, 2), vec![vec![1, 0], vec![3, 2]]);
    assert_eq!(batches(&order, 4), vec![vec![1, 0, 3, 2]]);
    assert_eq!(batches(&order, 100), vec![vec![1, 0, 3, 2]]);
    assert_eq!(batches(&order, 1), vec![vec![1], vec![0], vec![3], vec![2]]);
}

#[test]
fn batches_of_nothing() {
    assert_eq!(batches(&vec![], 3), Vec::<Vec<usize>>::new());
}

#[test]
fn batch_count_is_rounded_up() {
    let order: Vec<usize> = (0..10).collect();
    assert_eq!(batches(&order, 3).len(), 4);
    assert_eq!(batches(&order, 5).len(), 2);
    assert_eq!(batches(&order, 11).len(), 1);
}

#[test]
fn epoch_visits_every_sample_once() {
    let draws: Vec<usize> = (0..7).map(|i| i * 31 + 5).collect();
    let plan = epoch_batches(7, &draws, 3);
    assert_eq!(plan.len(), 3);
    assert_eq!(plan[0].len(), 3);
    assert_eq!(plan[1].len(), 3);
    assert_eq!(plan[2].len(), 1);
    let flat: Vec<usize> = plan.concat();
    assert_eq!(flat, shuffle_order(7, &draws));
    assert!(is_permutation(&flat, 7));
}

#[test]
fn loss_is_reported_every_hundredth_epoch() {
    assert!(reports_loss(0));
    assert!(!reports_loss(1));
    assert!(!reports_loss(99));
    assert!(reports_loss(100));
    assert!(!reports_loss(150));
    assert!(reports_loss(900));
}
