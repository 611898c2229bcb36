use genetic_rs::criterion::{Criterion, Iterations, Mark, Plateau};

#[test]
fn mark_stops_at_the_threshold() {
    let mut mark = Mark { max_rating: 5 };
    assert!(!mark.criterion(&vec![1, 4, 2]));
    assert!(mark.criterion(&vec![1, 5, 2]));
    assert!(mark.criterion(&vec![9]));
}

#[test]
fn plateau_counts_unchanged_best_ratings() {
    let mut plateau = Plateau::new(2);
    assert!(!plateau.criterion(&vec![3, 1]));
    assert!(!plateau.criterion(&vec![1, 3]));
    assert!(plateau.criterion(&vec![3]));
    assert!(plateau.criterion(&vec![2, 3]));
    assert!(!plateau.criterion(&vec![4]));
}

#[test]
fn plateau_starts_from_zero() {
    let mut plateau = Plateau::new(1);
    assert!(plateau.criterion(&vec![0, 0]));
}

#[test]
fn iterations_stops_after_a_fixed_number_of_calls() {
    let mut iterations = Iterations::new(3);
    assert!(!iterations.criterion(&vec![1]));
    assert!(!iterations.criterion(&vec![100]));
    assert!(iterations.criterion(&vec![1]));
    assert!(iterations.criterion(&vec![1]));
    let mut none = Iterations::new(0);
    assert!(none.criterion(&vec![1]));
}

#[test]
fn criteria_accept_empty_ratings() {
    let mut mark = Mark { max_rating: 0 };
    assert!(!mark.criterion(&vec![]));
    let mut iterations = Iterations::new(1);
    assert!(iterations.criterion(&vec![]));
    let mut plateau = Plateau::new(1);
    assert!(plateau.criterion(&vec![]));
}
