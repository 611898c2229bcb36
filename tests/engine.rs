use genetic_rs::criterion::{Iterations, Mark};
use genetic_rs::crossover::Crossover;
use genetic_rs::evaluator::Evaluator;
use genetic_rs::generator::{BasicGenerator, Generator};
use genetic_rs::mutation::{BasicMutation, Mutation};
use genetic_rs::ratings::best_of;
use genetic_rs::selector::{Elitism, Tournament};
use genetic_rs::{distinct_pair, fill_ratings, generate, pair_from_draws, partition_bounds, SearchError};

struct Zero;

impl Generator<u64> for Zero {
    fn can_generate(&self) -> bool {
        true
    }

    fn yields(&self, x: u64) -> bool {
        x == 0
    }

    fn generator(&self) -> u64 {
        0
    }
}

struct Identity;

impl Evaluator<u64> for Identity {
    fn rating(&self, x: u64) -> u64 {
        x
    }

    fn evaluator(&self, pop: &u64) -> u64 {
        *pop
    }
}

struct Climb;

impl Crossover<u64> for Climb {
    fn crosses(&self, parent1: u64, parent2: u64, child: u64) -> bool {
        child == parent1.max(parent2) + 1
    }

    fn crossover(&self, parent1: &u64, parent2: &u64) -> u64 {
        (*parent1).max(*parent2) + 1
    }
}

struct Nudge;

impl Mutation<u64> for Nudge {
    fn mutates(&self, before: u64, after: u64) -> bool {
        after == before + 1
    }

    fn mutation(&self, pop: &mut u64) {
        *pop += 1;
    }
}

#[test]
fn best_of_takes_the_first_best_index() {
    assert_eq!((1, 5), best_of(&vec![3, 5, 5, 1]));
    assert_eq!((0, 0), best_of(&vec![0, 0]));
    assert_eq!((2, 7), best_of(&vec![1, 2, 7]));
}

#[test]
fn partitions_put_the_remainder_last() {
    assert_eq!((0, 1), partition_bounds(10, 8, 0));
    assert_eq!((6, 7), partition_bounds(10, 8, 6));
    assert_eq!((7, 10), partition_bounds(10, 8, 7));
    assert_eq!((0, 0), partition_bounds(3, 8, 0));
    assert_eq!((0, 3), partition_bounds(3, 8, 7));
}

#[test]
fn ratings_do_not_depend_on_the_number_of_workers() {
    let pop: Vec<u64> = (0..37).map(|i| (i * 7919) % 101).collect();
    let mut one = vec![];
    fill_ratings(1, &pop, &Identity, &mut one);
    let mut eight = vec![];
    fill_ratings(8, &pop, &Identity, &mut eight);
    let mut many = vec![];
    fill_ratings(50, &pop, &Identity, &mut many);
    assert_eq!(pop, one);
    assert_eq!(one, eight);
    assert_eq!(one, many);
}

#[test]
fn distinct_pair_never_repeats_an_index() {
    for _ in 0..200 {
        let (a, b) = distinct_pair(2);
        assert!(a < 2 && b < 2 && a != b);
    }
}

#[test]
fn search_reaches_the_mark() {
    let mut stop = Mark { max_rating: 5 };
    let result = generate(&Zero, &Identity, &Elitism { max_pop: 2 }, &Climb, &Nudge, &mut stop, 4);
    let (best, generations, rating) = result.unwrap();
    assert!(rating >= 5);
    assert_eq!(best, rating);
    assert!(generations >= 1);
}

#[test]
fn search_stops_after_the_iteration_cap() {
    let mut stop = Iterations::new(3);
    let (_, generations, _) =
        generate(&Zero, &Identity, &Elitism { max_pop: 2 }, &Climb, &Nudge, &mut stop, 4).unwrap();
    assert_eq!(2, generations);
}

#[test]
fn search_fails_on_a_pool_too_small() {
    let mut stop = Mark { max_rating: 5 };
    let result = generate(&Zero, &Identity, &Tournament { max_pop: 2 }, &Climb, &Nudge, &mut stop, 4);
    assert_eq!(Err(SearchError::PoolTooSmall), result.map(|r| r.1));
}

#[test]
fn search_fails_where_the_selector_refuses() {
    let mut stop = Mark { max_rating: 5 };
    let result = generate(&Zero, &Identity, &Elitism { max_pop: 9 }, &Climb, &Nudge, &mut stop, 4);
    assert_eq!(Err(SearchError::SelectionRefused), result.map(|r| r.1));
}

#[test]
fn basic_generator_makes_alphanumeric_strings() {
    let s = BasicGenerator { string_size: 12 }.generator();
    assert_eq!(12, s.chars().count());
    assert!(s.chars().all(|c| c.is_ascii_alphanumeric()));
}

#[test]
fn basic_mutation_keeps_length_and_alphabet() {
    let mut s = String::from("aaaaaaaaaaaaaaaaaaaaaaaaaaaaaaaaaaaaaaaa");
    for _ in 0..20 {
        BasicMutation.mutation(&mut s);
    }
    assert_eq!(40, s.chars().count());
    assert!(s.chars().all(|c| c.is_ascii_alphanumeric()));
    assert!(s.chars().any(|c| c != 'a'));
}

#[test]
fn pair_from_draws_skips_the_first_index() {
    assert_eq!((2, 3), pair_from_draws(5, 2, 2));
    assert_eq!((2, 1), pair_from_draws(5, 2, 1));
    assert_eq!((0, 1), pair_from_draws(2, 0, 0));
    assert_eq!((1, 0), pair_from_draws(2, 1, 0));
}

#[test]
fn search_stopping_on_the_seed_breeds_nothing() {
    let mut stop = Mark { max_rating: 0 };
    let (best, generations, rating) =
        generate(&Zero, &Identity, &Tournament { max_pop: 1 }, &Climb, &Nudge, &mut stop, 3).unwrap();
    assert_eq!((0, 0, 0), (best, generations, rating));
}
