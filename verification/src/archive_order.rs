//! The order of archived logs: by the number of the boot, and by name.
use crate::log_manager::{archive_name, three_digits};
use crate::number::{
    all_digits, decimal, digit_run, digits_value, is_digit, lemma_decimal_round_trip,
    parse_unsigned, run_of_digits, unsigned,
};
use crate::order::{
    comes_before, lemma_before_irreflexive, lemma_before_total, lemma_before_transitive,
    text_before,
};
use crate::text::{from_chars, to_chars};
use vstd::prelude::*;

verus! {

/// The number of the boot that a name gives: the digits behind `boot-`.
pub open spec fn boot_number_of(name: Seq<char>) -> Option<nat> {
    if name.len() >= 5 && name.take(5) == "boot-"@ {
        unsigned(name.subrange(5, digit_run(name, 5)), u64::MAX as nat)
    } else {
        None
    }
}

/// The number of the boot that a name gives.
pub fn boot_number(name: &str) -> (r: Option<u64>)
    ensures
        r is Some <==> boot_number_of(name@) is Some,
        r is Some ==> boot_number_of(name@) == Some(r->0 as nat),
{
    proof {
        reveal_strlit("boot-");
    }
    let chars = to_chars(name);
    if chars.len() < 5 {
        return None;
    }
    let begins = chars[0] == 'b' && chars[1] == 'o' && chars[2] == 'o' && chars[3] == 't'
        && chars[4] == '-';
    assert(begins <==> name@.take(5) =~= "boot-"@) by {
        if name@.take(5) == "boot-"@ {
            assert(name@.take(5)[0] == 'b' && name@.take(5)[1] == 'o' && name@.take(5)[2] == 'o'
                && name@.take(5)[3] == 't' && name@.take(5)[4] == '-');
        }
    }
    if !begins {
        return None;
    }
    let end = run_of_digits(&chars, 5);
    let digits = from_chars(&chars, 5, end);
    parse_unsigned(digits.as_str(), u64::MAX)
}

/// Where a name stands: archives of boots by their numbers, and other logs in
/// front of all of them or behind, as their names go.
pub open spec fn standing(name: Seq<char>) -> (int, int) {
    match boot_number_of(name) {
        Some(n) => (1, n as int),
        None => if text_before(name, "boot-"@) {
            (0, 0)
        } else {
            (2, 0)
        },
    }
}

/// Whether the log with one name is older than that with another: its boot has
/// a smaller number, or the same and its name comes before the other.
pub open spec fn older(a: Seq<char>, b: Seq<char>) -> bool {
    let x = standing(a);
    let y = standing(b);
    x.0 < y.0 || x.0 == y.0 && (x.1 < y.1 || x.1 == y.1 && text_before(a, b))
}

fn standing_of(name: &str) -> (r: (u8, u64))
    ensures
        (r.0 as int, r.1 as int) == standing(name@),
{
    match boot_number(name) {
        Some(n) => (1, n),
        None => if comes_before(name, "boot-") {
            (0, 0)
        } else {
            (2, 0)
        },
    }
}

/// Whether the log with one name is older than that with another.
pub fn is_older(a: &str, b: &str) -> (r: bool)
    ensures
        r == older(a@, b@),
{
    let x = standing_of(a);
    let y = standing_of(b);
    x.0 < y.0 || x.0 == y.0 && (x.1 < y.1 || x.1 == y.1 && comes_before(a, b))
}

/// No log is older than itself.
pub proof fn lemma_older_irreflexive(a: Seq<char>)
    ensures
        !older(a, a),
{
    lemma_before_irreflexive(a);
}

/// A log that is older than one that is older than a third is older than the
/// third.
pub proof fn lemma_older_transitive(a: Seq<char>, b: Seq<char>, c: Seq<char>)
    requires
        older(a, b),
        older(b, c),
    ensures
        older(a, c),
{
    if text_before(a, b) && text_before(b, c) {
        lemma_before_transitive(a, b, c);
    }
}

/// Of two logs with different names one is older than the other.
pub proof fn lemma_older_total(a: Seq<char>, b: Seq<char>)
    ensures
        a == b || older(a, b) || older(b, a),
{
    lemma_before_total(a, b);
}

proof fn lemma_digits_end_at(s: Seq<char>, i: int, k: int)
    requires
        0 <= i <= k < s.len(),
        forall|j: int| i <= j < k ==> is_digit(#[trigger] s[j]),
        !is_digit(s[k]),
    ensures
        digit_run(s, i) == k,
    decreases k - i,
{
    if i < k {
        lemma_digits_end_at(s, i + 1, k);
    }
}

proof fn lemma_front_zero(d: Seq<char>)
    requires
        all_digits(d),
    ensures
        digits_value(seq!['0'] + d) == digits_value(d),
        all_digits(seq!['0'] + d),
    decreases d.len(),
{
    let z = seq!['0'] + d;
    if d.len() == 0 {
        assert(z.drop_last() =~= Seq::empty());
        assert(digits_value(Seq::<char>::empty()) == 0);
    } else {
        lemma_front_zero(d.drop_last());
        assert(z.drop_last() =~= seq!['0'] + d.drop_last());
        assert(z.last() == d.last());
    }
}

proof fn lemma_three_digits(n: nat)
    ensures
        all_digits(three_digits(n)),
        digits_value(three_digits(n)) == n,
        three_digits(n).len() > 0,
{
    let d = decimal(n);
    lemma_decimal_round_trip(n);
    lemma_front_zero(d);
    lemma_front_zero(seq!['0'] + d);
    reveal_strlit("0");
    reveal_strlit("00");
    assert("0"@ + d =~= seq!['0'] + d);
    assert("00"@ + d =~= seq!['0'] + (seq!['0'] + d));
}

/// The name of an archive gives the number of its boot.
pub proof fn lemma_archive_name_gives_number(n: nat, time: Seq<char>)
    requires
        n <= u64::MAX,
    ensures
        boot_number_of(archive_name(n, time)) == Some(n),
{
    let d = three_digits(n);
    let name = archive_name(n, time);
    lemma_three_digits(n);
    reveal_strlit("boot-");
    reveal_strlit("_");
    assert(name.take(5) =~= "boot-"@);
    let k = 5 + d.len() as int;
    assert forall|j: int| 5 <= j < k implies is_digit(#[trigger] name[j]) by {
        assert(name[j] == d[j - 5]);
    }
    assert(name[k] == '_');
    lemma_digits_end_at(name, 5, k);
    assert(name.subrange(5, k) =~= d);
    assert(is_digit(d[0]));
}

/// The archive of an earlier boot is older, whatever the times in the names.
pub proof fn lemma_earlier_boot_is_older(n: nat, time: Seq<char>, m: nat, later: Seq<char>)
    requires
        n < m <= u64::MAX,
    ensures
        older(archive_name(n, time), archive_name(m, later)),
{
    lemma_archive_name_gives_number(n, time);
    lemma_archive_name_gives_number(m, later);
}

} // verus!
