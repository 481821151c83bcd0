//! The random choices the library makes, through `rand`.  What comes out of
//! a draw is left open; only what holds of every outcome is stated.
use rand::rngs::StdRng;
use rand::seq::SliceRandom;
use rand::Rng;
use vstd::prelude::*;

verus! {

#[verifier::external_type_specification]
#[verifier::external_body]
pub struct ExStdRng(StdRng);

/// `p` maps the positions `0..n` one-to-one onto themselves.
pub open spec fn is_index_perm(p: Seq<int>, n: nat) -> bool {
    &&& p.len() == n
    &&& forall|i: int| 0 <= i < n ==> 0 <= #[trigger] p[i] < n
    &&& forall|i: int, j: int| 0 <= i < j < n ==> #[trigger] p[i] != #[trigger] p[j]
}

/// `a` holds the elements of `b`, each exactly once, in some order.
pub open spec fn permutes<T>(a: Seq<T>, b: Seq<T>) -> bool {
    a.len() == b.len() && exists|p: Seq<int>|
        is_index_perm(p, b.len()) && forall|i: int| 0 <= i < a.len() ==> #[trigger] a[i] == b[p[i]]
}

/// `Rng::gen::<u8>`: any byte.
#[verifier::external_body]
pub(crate) fn gen_u8(rng: &mut StdRng) -> u8 {
    rng.gen::<u8>()
}

/// `Rng::gen_range(lo..hi)`: a value of the half-open range, which must not
/// be empty (rand panics on an empty range).
#[verifier::external_body]
pub(crate) fn gen_range_u32(rng: &mut StdRng, lo: u32, hi: u32) -> (r: u32)
    requires
        lo < hi,
    ensures
        lo <= r < hi,
{
    rng.gen_range(lo..hi)
}

/// `Rng::gen_ratio(num, den)`: true with chance `num/den`; certainly false
/// when `num` is 0 and certainly true when `num == den`.  rand panics when
/// `den` is 0 or `num > den`.
#[verifier::external_body]
pub(crate) fn gen_ratio(rng: &mut StdRng, num: u32, den: u32) -> (r: bool)
    requires
        0 < den,
        num <= den,
    ensures
        num == 0 ==> !r,
        num == den ==> r,
{
    rng.gen_ratio(num, den)
}

/// `Rng::fill` on 16 bytes: any 16 bytes.
#[verifier::external_body]
pub(crate) fn fill_16(rng: &mut StdRng) -> (r: [u8; 16]) {
    let mut bytes = [0u8; 16];
    rng.fill(&mut bytes);
    bytes
}

/// `SliceRandom::choose`: one of the items, which must not be empty (rand
/// returns `None` for an empty slice).
#[verifier::external_body]
pub(crate) fn choose_one<T: Copy>(items: &[T], rng: &mut StdRng) -> (r: T)
    requires
        items@.len() > 0,
    ensures
        items@.contains(r),
{
    *items.choose(rng).unwrap()
}

/// `SliceRandom::shuffle`: the same elements, each once, in some order.
#[verifier::external_body]
pub(crate) fn shuffle<T>(v: &mut Vec<T>, rng: &mut StdRng)
    ensures
        permutes(final(v)@, old(v)@),
{
    v.shuffle(rng)
}

} // verus!
