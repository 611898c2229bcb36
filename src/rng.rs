//! The random draws the engine and its strategies make, all from the
//! thread-local generator of `rand`.
use vstd::prelude::*;
use rand::distributions::{Alphanumeric, WeightedIndex};
use rand::prelude::Distribution;
use rand::seq::SliceRandom;
use rand::Rng;

verus! {

/// A `rand` weighted distribution over indices. Verus does not take the
/// declaration of `WeightedIndex` (its bounds name `rand`'s traits), so the
/// distribution is held here, opaque, and described by `weights_of`.
#[verifier::external_body]
pub struct Weighted {
    dist: WeightedIndex<u64>,
}

/// The weights a weighted distribution was built from.
pub uninterp spec fn weights_of(d: Weighted) -> Seq<u64>;

/// The sum of `w`.
pub open spec fn total(w: Seq<u64>) -> int
    decreases w.len(),
{
    if w.len() == 0 {
        0
    } else {
        total(w.drop_last()) + w.last()
    }
}

/// `c` is an ASCII letter or digit.
pub open spec fn is_alphanumeric(c: char) -> bool {
    ('a' <= c && c <= 'z') || ('A' <= c && c <= 'Z') || ('0' <= c && c <= '9')
}

/// Relies on `Rng::gen_range` on `thread_rng()`: a value of `lo..hi`, which
/// must not be empty.
#[verifier::external_body]
pub(crate) fn random_range(lo: usize, hi: usize) -> (r: usize)
    requires
        lo < hi,
    ensures
        lo <= r < hi,
{
    rand::thread_rng().gen_range(lo..hi)
}

/// Relies on `Rng::gen_ratio` on `thread_rng()`: `true` with probability
/// `num / den`, so never for `num == 0` and always for `num == den`.
#[verifier::external_body]
pub(crate) fn random_ratio(num: u32, den: u32) -> (r: bool)
    requires
        0 < den,
        num <= den,
    ensures
        num == 0 ==> !r,
        num == den ==> r,
{
    rand::thread_rng().gen_ratio(num, den)
}

/// Relies on sampling `Alphanumeric` from `thread_rng()`: one ASCII letter or
/// digit.
#[verifier::external_body]
pub(crate) fn random_alphanumeric() -> (r: char)
    ensures
        is_alphanumeric(r),
{
    rand::thread_rng().sample(Alphanumeric) as char
}

/// Relies on `WeightedIndex::new`: it fails (`None` here) on an empty list or
/// when every weight is zero, and keeps the weights otherwise. The sum must
/// fit in a `u64`, since the distribution adds the weights up in that type.
#[verifier::external_body]
pub(crate) fn weighted_index(w: &Vec<u64>) -> (r: Option<Weighted>)
    requires
        total(w@) <= u64::MAX,
    ensures
        r.is_some() == (w.len() > 0 && total(w@) > 0),
        r.is_some() ==> weights_of(r.unwrap()) == w@,
{
    WeightedIndex::new(w).ok().map(|dist| Weighted { dist })
}

/// Relies on `Distribution::sample` of `WeightedIndex` on `thread_rng()`: the
/// index of a weight, never one that is zero (it picks the first index whose
/// running sum exceeds a draw below the total).
#[verifier::external_body]
pub(crate) fn weighted_pick(d: &Weighted) -> (r: usize)
    ensures
        r < weights_of(*d).len(),
        weights_of(*d)[r as int] > 0,
{
    d.dist.sample(&mut rand::thread_rng())
}

/// Relies on `SliceRandom::choose_multiple` on `thread_rng()`: as many
/// elements as asked for (or all there are), taken at distinct positions.
#[verifier::external_body]
pub(crate) fn choose_multiple(v: &Vec<usize>, amount: usize) -> (r: Vec<usize>)
    ensures
        r.len() == if amount <= v.len() { amount } else { v.len() },
        exists|pos: Seq<int>|
            pos.len() == r.len() && pos.no_duplicates() && forall|k: int|
                0 <= k < r.len() ==> 0 <= #[trigger] pos[k] < v.len() && r@[k] == v@[pos[k]],
{
    v.choose_multiple(&mut rand::thread_rng(), amount).cloned().collect()
}

/// Relies on `SliceRandom::shuffle` on `thread_rng()`: the same elements, in
/// some order.
#[verifier::external_body]
pub(crate) fn shuffle(v: &mut Vec<usize>)
    ensures
        final(v)@.to_multiset() == old(v)@.to_multiset(),
{
    v.shuffle(&mut rand::thread_rng())
}

/// Relies on `String::from_iter`: a string of the characters, in order.
#[verifier::external_body]
pub(crate) fn string_from(chars: &Vec<char>) -> (s: String)
    ensures
        s@ == chars@,
{
    String::from_iter(chars.iter())
}

/// What `str::replace` returns for `s`, `from` and `to`.
pub uninterp spec fn replaced(s: Seq<char>, from: Seq<char>, to: Seq<char>) -> Seq<char>;

/// Relies on `str::replace`: `s` with its matches of `from` replaced by `to`,
/// a result that depends on the three strings alone.
#[verifier::external_body]
pub(crate) fn replace_all(s: &str, from: &str, to: &str) -> (r: String)
    ensures
        r@ == replaced(s@, from@, to@),
{
    s.replace(from, to)
}

} // verus!
