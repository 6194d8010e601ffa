//! Free names for boards.
use crate::number::{decimal, lemma_decimal_injective, wide_decimal_text};
use crate::text::{has_text, owned, texts};
use vstd::prelude::*;

verus! {

/// The name with a number.
pub open spec fn numbered(prefix: Seq<char>, n: nat) -> Seq<char> {
    prefix + decimal(n)
}

/// Whether `n` is the first number, from one on, whose name is not taken.
pub open spec fn first_free(prefix: Seq<char>, taken: Seq<Seq<char>>, n: nat) -> bool {
    &&& n >= 1
    &&& !taken.contains(numbered(prefix, n))
    &&& forall|m: nat| 1 <= m < n ==> taken.contains(#[trigger] numbered(prefix, m))
}

/// The name with the first number that is not taken.
pub open spec fn next_free(prefix: Seq<char>, taken: Seq<Seq<char>>) -> Seq<char> {
    numbered(prefix, choose|n: nat| first_free(prefix, taken, n))
}

proof fn lemma_numbered_injective(prefix: Seq<char>, a: nat, b: nat)
    requires
        numbered(prefix, a) == numbered(prefix, b),
    ensures
        a == b,
{
    let k = prefix.len() as int;
    assert(numbered(prefix, a).skip(k) =~= decimal(a));
    assert(numbered(prefix, b).skip(k) =~= decimal(b));
    lemma_decimal_injective(a, b);
}

proof fn lemma_taken_bound(prefix: Seq<char>, taken: Seq<Seq<char>>, k: nat)
    requires
        forall|m: nat| 1 <= m <= k ==> taken.contains(#[trigger] numbered(prefix, m)),
    ensures
        k <= taken.len(),
{
    let names = Seq::new(k, |i: int| numbered(prefix, (i + 1) as nat));
    assert forall|i: int, j: int| 0 <= i < names.len() && 0 <= j < names.len() && i != j implies names[i]
        != names[j] by {
        if names[i] == names[j] {
            lemma_numbered_injective(prefix, (i + 1) as nat, (j + 1) as nat);
        }
    }
    assert(names.no_duplicates());
    names.unique_seq_to_set();
    assert forall|x: Seq<char>| names.to_set().contains(x) implies taken.to_set().contains(x) by {
        let i = choose|i: int| 0 <= i < names.len() && names[i] == x;
        assert(taken.contains(numbered(prefix, (i + 1) as nat)));
    }
    assert(names.to_set().subset_of(taken.to_set()));
    vstd::seq_lib::seq_to_set_is_finite(taken);
    vstd::set_lib::lemma_len_subset(names.to_set(), taken.to_set());
    taken.lemma_cardinality_of_set();
}

proof fn lemma_first_free_unique(prefix: Seq<char>, taken: Seq<Seq<char>>, a: nat, b: nat)
    requires
        first_free(prefix, taken, a),
        first_free(prefix, taken, b),
    ensures
        a == b,
{
    if a < b {
        assert(taken.contains(numbered(prefix, a)));
    } else if b < a {
        assert(taken.contains(numbered(prefix, b)));
    }
}

/// There is always a free name; it is not taken, and every name with a smaller
/// number is.
pub proof fn lemma_next_free(prefix: Seq<char>, taken: Seq<Seq<char>>)
    ensures
        !taken.contains(next_free(prefix, taken)),
        exists|n: nat|
            #[trigger] first_free(prefix, taken, n) && n <= taken.len() + 1 && next_free(
                prefix,
                taken,
            ) == numbered(prefix, n),
{
    lemma_free_below(prefix, taken, 1);
    let n = choose|n: nat| #[trigger] first_free(prefix, taken, n) && n <= taken.len() + 1;
    lemma_first_free_unique(prefix, taken, n, choose|m: nat| first_free(prefix, taken, m));
}

proof fn lemma_free_below(prefix: Seq<char>, taken: Seq<Seq<char>>, n: nat)
    requires
        n >= 1,
        forall|m: nat| 1 <= m < n ==> taken.contains(#[trigger] numbered(prefix, m)),
    ensures
        exists|k: nat| #[trigger] first_free(prefix, taken, k) && k <= taken.len() + 1,
    decreases taken.len() + 1 - n,
{
    lemma_taken_bound(prefix, taken, (n - 1) as nat);
    if taken.contains(numbered(prefix, n)) {
        lemma_taken_bound(prefix, taken, n);
        lemma_free_below(prefix, taken, n + 1);
    } else {
        assert(first_free(prefix, taken, n));
    }
}

/// The first free name with the prefix.
pub fn next_free_dut_name(prefix: &str, taken: &[String]) -> (r: String)
    ensures
        r@ == next_free(prefix@, texts(taken@)),
{
    let ghost t = texts(taken@);
    let count: usize = taken.len();
    let mut n: u128 = 1;
    loop
        invariant
            1 <= n,
            t == texts(taken@),
            count == t.len(),
            n <= t.len() + 1,
            forall|m: nat| 1 <= m < n ==> t.contains(#[trigger] numbered(prefix@, m)),
        decreases t.len() + 1 - n,
    {
        let mut candidate = owned(prefix);
        candidate.append(wide_decimal_text(n).as_str());
        assert(candidate@ == numbered(prefix@, n as nat));
        if !has_text(taken, candidate.as_str()) {
            proof {
                assert(first_free(prefix@, t, n as nat));
                lemma_first_free_unique(
                    prefix@,
                    t,
                    n as nat,
                    choose|m: nat| first_free(prefix@, t, m),
                );
            }
            return candidate;
        }
        proof {
            lemma_taken_bound(prefix@, t, n as nat);
        }
        n += 1;
    }
}

} // verus!
