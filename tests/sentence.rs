use genetic_rs::crossover::Crossover;
use genetic_rs::evaluator::Evaluator;
use genetic_rs::sentence::strategies::{BasicCrossover, BasicMutation, LevensteinEvaluation, MotusEvaluation};

fn lev(a: &str, b: &str) -> usize {
    let e = LevensteinEvaluation { solution: String::new() };
    e.levenshtein_distance(&String::from(a), &String::from(b))
}

#[test]
fn levenshtein_distance_of_known_pairs() {
    assert_eq!(3, lev("kitten", "sitting"));
    assert_eq!(0, lev("same", "same"));
    assert_eq!(4, lev("", "four"));
    assert_eq!(4, lev("four", ""));
    assert_eq!(1, lev("abc", "abd"));
    assert_eq!(2, lev("flaw", "lawn"));
}

#[test]
fn levenshtein_rating_is_length_less_distance() {
    let e = LevensteinEvaluation { solution: String::from("coucou") };
    assert_eq!(6, e.evaluator(&String::from("coucou")));
    assert_eq!(5, e.evaluator(&String::from("coucoa")));
    assert_eq!(0, e.evaluator(&String::from("zzzzzzzzzzzzzzz")));
}

#[test]
fn motus_counts_half_points() {
    let e = MotusEvaluation { solution: String::from("abcab") };
    // two letters in place, then both found further on
    assert_eq!(6, e.evaluator(&String::from("ab")));
    assert_eq!(10, e.evaluator(&String::from("abcab")));
    // a wrong first letter ends the search
    assert_eq!(0, e.evaluator(&String::from("xbcab")));
    assert_eq!(4, e.evaluator(&String::from("abxab")));
    assert_eq!(0, e.evaluator(&String::from("")));
}

#[test]
fn crossover_takes_a_run_of_the_second_parent() {
    let p1 = String::from("aaaaaaaa");
    let p2 = String::from("bbbbbbbb");
    for _ in 0..50 {
        let child = BasicCrossover.crossover(&p1, &p2);
        assert!(child.contains('b'));
        assert!(child.chars().all(|c| c == 'a' || c == 'b'));
    }
}

#[test]
fn crossover_of_identical_parents_is_the_parent() {
    let p = String::from("coucoualex");
    for _ in 0..50 {
        assert_eq!(p, BasicCrossover.crossover(&p, &p));
    }
}

#[test]
fn crossover_with_a_shorter_second_parent_copies_the_first() {
    assert_eq!(String::from("abc"), BasicCrossover.crossover(&String::from("abc"), &String::from("x")));
    assert_eq!(String::new(), BasicCrossover.crossover(&String::new(), &String::from("x")));
}

#[test]
fn replace_chars_puts_each_pick_in_place() {
    let s = String::from("abcd");
    let r = BasicMutation.replace_chars(&s, &vec![None, Some('X'), None, Some('7')]);
    assert_eq!(String::from("aXc7"), r);
}
