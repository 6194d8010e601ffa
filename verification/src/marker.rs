//! Random markers, made of letters that log keywords do not begin with.
use vstd::prelude::*;

verus! {

/// The letters that a marker is made of, as their codes: the capital letters
/// without `R`, `I` and `D`.
pub const MARKER_POOL: [u8; 23] = [
    0x41, 0x42, 0x43, 0x45, 0x46, 0x47, 0x48, 0x4a, 0x4b, 0x4c, 0x4d, 0x4e,
    0x4f, 0x50, 0x51, 0x53, 0x54, 0x55, 0x56, 0x57, 0x58, 0x59, 0x5a,
];

/// The number of letters in a marker.
pub const MARKER_LEN: usize = 10;

/// `rand::Rng::random_range` of the thread's generator: some number below
/// `n`. Which one, is left to chance.
#[verifier::external_body]
fn random_below(n: usize) -> (r: usize)
    requires
        n > 0,
    ensures
        r < n,
{
    rand::Rng::random_range(&mut rand::rng(), 0..n)
}

/// The text whose letters are those of the pool at some positions.
pub open spec fn picked(positions: Seq<usize>) -> Seq<char> {
    Seq::new(positions.len(), |i: int| MARKER_POOL@[positions[i] as int] as char)
}

/// The text whose letters are those of the pool at some positions.
pub fn marker_at(positions: &Vec<usize>) -> (r: String)
    requires
        forall|i: int| 0 <= i < positions@.len() ==> positions@[i] < 23,
    ensures
        r@ == picked(positions@),
{
    let pool: [u8; 23] = MARKER_POOL;
    let mut r = String::new();
    let mut i: usize = 0;
    while i < positions.len()
        invariant
            i <= positions@.len(),
            pool == MARKER_POOL,
            forall|k: int| 0 <= k < positions@.len() ==> positions@[k] < 23,
            r@.len() == i,
            forall|k: int| 0 <= k < i ==> r@[k] == picked(positions@)[k],
        decreases positions@.len() - i,
    {
        r.push(pool[positions[i]] as char);
        i += 1;
    }
    assert(r@ =~= picked(positions@));
    r
}

/// Whether a letter is in the pool.
pub open spec fn in_pool(c: char) -> bool {
    exists|i: int| 0 <= i < 23 && c == #[trigger] MARKER_POOL@[i] as char
}

/// A random marker: as many letters of the pool as a marker has.
pub fn gen_marker() -> (r: String)
    ensures
        r@.len() == MARKER_LEN,
        forall|i: int| 0 <= i < r@.len() ==> #[trigger] in_pool(r@[i]),
{
    let mut positions: Vec<usize> = Vec::new();
    while positions.len() < MARKER_LEN
        invariant
            positions@.len() <= MARKER_LEN,
            forall|k: int| 0 <= k < positions@.len() ==> positions@[k] < 23,
        decreases MARKER_LEN - positions@.len(),
    {
        positions.push(random_below(23));
    }
    let r = marker_at(&positions);
    assert forall|i: int| 0 <= i < r@.len() implies #[trigger] in_pool(r@[i]) by {
        assert(r@[i] == MARKER_POOL@[positions@[i] as int] as char);
    }
    r
}

/// A letter of the pool is a capital letter, and none of the three that log
/// keywords are told by.
pub proof fn lemma_pool_letters(c: char)
    requires
        in_pool(c),
    ensures
        'A' <= c <= 'Z',
        c != 'R' && c != 'I' && c != 'D',
{
    let i = choose|i: int| 0 <= i < 23 && c == #[trigger] MARKER_POOL@[i] as char;
    assert('A' <= MARKER_POOL@[i] as char <= 'Z');
}

} // verus!
