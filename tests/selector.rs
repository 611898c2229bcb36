use genetic_rs::selector::{BestAndRand, Elitism, Rank, Rating, Selector, Tournament};

// Ratings are integer scores: the ratings 1.0, 4.7, 2.9 and 0.2 are written
// in tenths.

#[test]
fn test_calculate_ranks() {
    let selector = Rank { max_pop: 2 };

    let ratings = vec![10, 47, 29, 2];

    let result = selector.calculate_rank(&ratings);
    assert_eq!(vec![2, 4, 3, 1], result);
}

#[test]
fn test_elitism() {
    let selector = Elitism { max_pop: 2 };

    let pop = vec![String::from("aaaa"), String::from("bbbb"), String::from("cccc"), String::from("dddd")];
    let ratings = vec![10, 47, 29, 2];

    let result = selector.selector(&pop, &ratings);
    assert_eq!(vec![String::from("bbbb"), String::from("cccc")], result);
}

#[test]
fn ranks_of_equal_ratings_follow_index() {
    let selector = Rank { max_pop: 1 };
    assert_eq!(vec![1, 4, 2, 3], selector.calculate_rank(&vec![1, 5, 3, 3]));
}

#[test]
fn elitism_puts_later_index_first_on_ties() {
    let selector = Elitism { max_pop: 3 };
    assert_eq!(vec![3, 1, 2], selector.select_indices(&vec![5, 7, 5, 7]));
}

#[test]
fn elitism_refuses_more_than_the_population() {
    let selector = Elitism { max_pop: 5 };
    assert!(!Selector::<u32>::can_select(&selector, &vec![1, 2, 3]));
    assert!(Selector::<u32>::can_select(&selector, &vec![1, 2, 3, 4, 5]));
}

#[test]
fn rating_never_draws_a_zero_rating() {
    let selector = Rating { max_pop: 200 };
    let idx = selector.select_indices(&vec![0, 3, 0, 1]);
    assert_eq!(200, idx.len());
    assert!(idx.iter().all(|&i| i == 1 || i == 3));
}

#[test]
fn rating_refuses_all_zero_ratings() {
    let selector = Rating { max_pop: 3 };
    assert!(!selector.accepts(&vec![0, 0, 0]));
    assert!(!selector.accepts(&vec![]));
    assert!(!selector.accepts(&vec![u64::MAX, 1]));
}

#[test]
fn rating_draws_equal_ratings_about_evenly() {
    let selector = Rating { max_pop: 40000 };
    let idx = selector.select_indices(&vec![5, 5, 5, 5]);
    let mut counts = [0usize; 4];
    for i in idx {
        counts[i] += 1;
    }
    for c in counts {
        assert!(c > 9000 && c < 11000, "{:?}", counts);
    }
}

#[test]
fn rank_draws_every_index_in_range() {
    let selector = Rank { max_pop: 50 };
    let idx = selector.select_indices(&vec![0, 0, 9]);
    assert_eq!(50, idx.len());
    assert!(idx.iter().all(|&i| i < 3));
    assert!(!selector.accepts(&vec![]));
}

#[test]
fn tournament_of_whole_population_picks_the_best() {
    let selector = Tournament { max_pop: 4 };
    let pop = vec!["a", "b", "c", "d"];
    let result = selector.selector(&pop, &vec![3, 9, 1, 9]);
    assert_eq!(3, result.len());
    assert!(result.iter().all(|&s| s == "b" || s == "d"));
}

#[test]
fn tournament_refuses_groups_larger_than_population() {
    let selector = Tournament { max_pop: 5 };
    assert!(!selector.accepts(&vec![1, 2, 3]));
    let selector = Tournament { max_pop: 0 };
    assert!(!selector.accepts(&vec![1, 2, 3]));
}

#[test]
fn best_and_rand_starts_with_the_elite() {
    let selector = BestAndRand { best_pop: 2, rand_pop: 3 };
    let idx = selector.select_indices(&vec![4, 8, 6, 1, 0, 2]);
    assert_eq!(5, idx.len());
    assert_eq!(vec![1, 2], idx[..2].to_vec());
    let mut rest = idx[2..].to_vec();
    rest.sort();
    rest.dedup();
    assert_eq!(3, rest.len());
    assert!(rest.iter().all(|&i| i < 6));
}

#[test]
fn best_and_rand_refuses_a_pool_as_large_as_the_population() {
    let selector = BestAndRand { best_pop: 2, rand_pop: 2 };
    assert!(!selector.accepts(&vec![4, 8, 6, 1]));
    let selector = BestAndRand { best_pop: 5, rand_pop: 0 };
    assert!(!selector.accepts(&vec![4, 8, 6, 1]));
    let selector = BestAndRand { best_pop: 1, rand_pop: 2 };
    let pop = vec!["a", "b", "c", "d"];
    assert_eq!(3, selector.selector(&pop, &vec![4, 8, 6, 1]).len());
}

#[test]
fn tournament_of_three_returns_the_best_twice() {
    let selector = Tournament { max_pop: 3 };
    let pop = vec![String::from("a"), String::from("b"), String::from("c")];
    let result = selector.selector(&pop, &vec![10, 30, 20]);
    assert_eq!(vec![String::from("b"), String::from("b")], result);
}
