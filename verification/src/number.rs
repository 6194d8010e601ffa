//! Numbers as text: decimal digits and the decimal texts of real numbers.
use crate::text::{from_chars, to_chars};
use vstd::prelude::*;

verus! {

// ── Whole numbers ────────────────────────────────────────────────────
/// Whether the character is one of the ten decimal digits.
pub open spec fn is_digit(c: char) -> bool {
    '0' <= c <= '9'
}

/// The character for a digit.
pub open spec fn digit_char(d: nat) -> char {
    (48 + d) as char
}

/// The decimal text of a number, without leading zeros.
pub open spec fn decimal(n: nat) -> Seq<char>
    decreases n,
{
    if n < 10 {
        seq![digit_char(n)]
    } else {
        decimal(n / 10).push(digit_char(n % 10))
    }
}

/// The number that a row of digits stands for.
pub open spec fn digits_value(s: Seq<char>) -> nat
    decreases s.len(),
{
    if s.len() == 0 {
        0
    } else {
        digits_value(s.drop_last()) * 10 + (s.last() as nat - 48) as nat
    }
}

/// Whether every character is a digit.
pub open spec fn all_digits(s: Seq<char>) -> bool {
    forall|i: int| 0 <= i < s.len() ==> is_digit(#[trigger] s[i])
}

/// The text without one leading plus sign.
pub open spec fn without_plus(s: Seq<char>) -> Seq<char> {
    if s.len() > 0 && s[0] == '+' {
        s.drop_first()
    } else {
        s
    }
}

/// The number of at most `max` that the text spells: digits, with at most
/// one plus sign in front.
pub open spec fn unsigned(s: Seq<char>, max: nat) -> Option<nat> {
    let d = without_plus(s);
    if d.len() > 0 && all_digits(d) && digits_value(d) <= max {
        Some(digits_value(d))
    } else {
        None
    }
}

/// Reading back the decimal text of a number gives the number.
pub proof fn lemma_decimal_round_trip(n: nat)
    ensures
        decimal(n).len() > 0,
        all_digits(decimal(n)),
        digits_value(decimal(n)) == n,
        unsigned(decimal(n), n) == Some(n),
    decreases n,
{
    if n < 10 {
        let s = seq![digit_char(n)];
        assert(s.drop_last() =~= Seq::empty());
        assert(digits_value(Seq::<char>::empty()) == 0);
        assert(digits_value(s) == n);
    } else {
        lemma_decimal_round_trip(n / 10);
        let s = decimal(n);
        assert(s.drop_last() =~= decimal(n / 10));
        assert(all_digits(s));
    }
    assert(decimal(n)[0] != '+') by {
        assert(is_digit(decimal(n)[0]));
    }
}

/// Two numbers with the same decimal text are the same number.
pub proof fn lemma_decimal_injective(a: nat, b: nat)
    requires
        decimal(a) == decimal(b),
    ensures
        a == b,
{
    lemma_decimal_round_trip(a);
    lemma_decimal_round_trip(b);
}

/// The decimal text of a number of 128 bits.
pub fn wide_decimal_text(n: u128) -> (r: String)
    ensures
        r@ == decimal(n as nat),
    decreases n,
{
    if n < 10 {
        let mut s = String::new();
        s.push((48u8 + n as u8) as char);
        assert(s@ =~= decimal(n as nat));
        s
    } else {
        let mut s = wide_decimal_text(n / 10);
        s.push((48u8 + (n % 10) as u8) as char);
        s
    }
}

/// The decimal text of a number.
pub fn decimal_text(n: u64) -> (r: String)
    ensures
        r@ == decimal(n as nat),
{
    wide_decimal_text(n as u128)
}

proof fn lemma_digits_value_grows(s: Seq<char>, k: int)
    requires
        0 <= k <= s.len(),
        all_digits(s),
    ensures
        digits_value(s.take(k)) <= digits_value(s),
    decreases s.len() - k,
{
    if k < s.len() {
        lemma_digits_value_grows(s.drop_last(), k);
        assert(s.drop_last().take(k) =~= s.take(k));
    } else {
        assert(s.take(k) =~= s);
    }
}

/// Reads a number of at most `max`.
pub fn parse_unsigned(s: &str, max: u64) -> (r: Option<u64>)
    ensures
        r is Some <==> unsigned(s@, max as nat) is Some,
        r is Some ==> unsigned(s@, max as nat) == Some(r->0 as nat) && r->0 <= max,
{
    let chars = to_chars(s);
    let start: usize = if chars.len() > 0 && chars[0] == '+' {
        1
    } else {
        0
    };
    let ghost d = without_plus(s@);
    assert(d =~= s@.skip(start as int));
    if start == chars.len() {
        return None;
    }
    let mut i: usize = start;
    let mut n: u64 = 0;
    assert(d.take(0) =~= Seq::empty());
    while i < chars.len()
        invariant
            start <= i <= chars.len(),
            chars@ == s@,
            d == s@.skip(start as int),
            d == without_plus(s@),
            start < chars.len(),
            forall|j: int| start <= j < i ==> is_digit(#[trigger] s@[j]),
            n == digits_value(d.take(i - start)),
            n <= max,
        decreases chars.len() - i,
    {
        let c = chars[i];
        if !('0' <= c && c <= '9') {
            assert(!is_digit(d[i - start]));
            return None;
        }
        let v: u64 = (c as u64) - 48;
        let ghost t = d.take(i + 1 - start);
        assert(t.drop_last() =~= d.take(i - start));
        assert(t.last() == c);
        assert(digits_value(t) == n as nat * 10 + v as nat);
        let wide: u128 = (n as u128) * 10 + (v as u128);
        if wide > max as u128 {
            proof {
                if all_digits(d) {
                    lemma_digits_value_grows(d, i + 1 - start);
                }
            }
            return None;
        }
        n = wide as u64;
        i += 1;
    }
    assert(d.take(chars.len() - start) =~= d);
    assert(all_digits(d)) by {
        assert forall|j: int| 0 <= j < d.len() implies is_digit(#[trigger] d[j]) by {
            assert(d[j] == s@[j + start]);
        }
    }
    Some(n)
}

// ── Real numbers ─────────────────────────────────────────────────────
/// Where a real number lies.
#[derive(Clone, Copy, Debug, PartialEq, Eq, Structural)]
pub enum RealSign {
    /// Greater than zero.
    Positive,
    /// Zero or less.
    NotPositive,
}

/// A real number that was read from a text: its digits written out without an
/// exponent, as a number of 64 bits gives them back, and its sign.
#[derive(Clone, Debug, PartialEq)]
pub struct Real {
    pub text: String,
    pub sign: RealSign,
}

/// The meaning of a [`Real`].
pub struct RealView {
    pub text: Seq<char>,
    pub sign: RealSign,
}

impl View for Real {
    type V = RealView;

    open spec fn view(&self) -> RealView {
        RealView { text: self.text@, sign: self.sign }
    }
}

/// The lower case form of an ASCII letter; other characters stay.
pub open spec fn ascii_lower(c: char) -> char {
    if 'A' <= c <= 'Z' {
        (c as u32 + 32) as char
    } else {
        c
    }
}

/// The text with its ASCII letters in lower case.
pub open spec fn ascii_lowered(s: Seq<char>) -> Seq<char> {
    Seq::new(s.len(), |i: int| ascii_lower(s[i]))
}

/// The text with its ASCII letters in lower case.
pub fn to_ascii_lower(s: &str) -> (r: String)
    ensures
        r@ == ascii_lowered(s@),
{
    let chars = to_chars(s);
    let mut out = String::new();
    let mut i: usize = 0;
    while i < chars.len()
        invariant
            i <= chars.len(),
            chars@ == s@,
            out@ == ascii_lowered(s@).take(i as int),
        decreases chars.len() - i,
    {
        let c = chars[i];
        if 'A' <= c && c <= 'Z' {
            out.push(((c as u32) as u8 + 32) as char);
        } else {
            out.push(c);
        }
        assert(out@ =~= ascii_lowered(s@).take(i + 1));
        i += 1;
    }
    assert(ascii_lowered(s@).take(s@.len() as int) =~= ascii_lowered(s@));
    out
}

/// The first position at or after `i` that holds no digit.
pub open spec fn digit_run(s: Seq<char>, i: int) -> int
    decreases s.len() - i,
{
    if 0 <= i < s.len() && is_digit(s[i]) {
        digit_run(s, i + 1)
    } else {
        i
    }
}

/// The position behind the digits from `from` on.
pub fn run_of_digits(chars: &Vec<char>, from: usize) -> (r: usize)
    requires
        from <= chars.len(),
    ensures
        r == digit_run(chars@, from as int),
        from <= r <= chars.len(),
        forall|j: int| from <= j < r ==> is_digit(#[trigger] chars@[j]),
    decreases chars.len() - from,
{
    if from < chars.len() && '0' <= chars[from] && chars[from] <= '9' {
        run_of_digits(chars, from + 1)
    } else {
        from
    }
}

/// Without leading zeros.
pub open spec fn strip_front_zeros(s: Seq<char>) -> Seq<char>
    decreases s.len(),
{
    if s.len() > 0 && s[0] == '0' {
        strip_front_zeros(s.drop_first())
    } else {
        s
    }
}

/// Without trailing zeros.
pub open spec fn strip_back_zeros(s: Seq<char>) -> Seq<char>
    decreases s.len(),
{
    if s.len() > 0 && s.last() == '0' {
        strip_back_zeros(s.drop_last())
    } else {
        s
    }
}

/// A row of zeros.
pub open spec fn zeros(n: nat) -> Seq<char> {
    Seq::new(n, |i: int| '0')
}

/// The value of the digits of an exponent. There is none for one that leads
/// far out of the range of a number of 64 bits.
pub open spec fn exponent_value(small: bool, digits: Seq<char>) -> Option<int> {
    let e = strip_front_zeros(digits);
    if e.len() == 0 {
        Some(0)
    } else {
        match unsigned(e, 9999) {
            Some(n) => Some(
                if small {
                    -(n as int)
                } else {
                    n as int
                },
            ),
            None => None,
        }
    }
}

/// Digits without zeros at either end, written out with the point behind the
/// first `p` of them.
pub open spec fn written_out(digits: Seq<char>, p: int) -> Seq<char> {
    if p <= 0 {
        seq!['0', '.'] + zeros((-p) as nat) + digits
    } else if p >= digits.len() {
        digits + zeros((p - digits.len()) as nat)
    } else {
        digits.take(p) + seq!['.'] + digits.skip(p)
    }
}

/// Whether a floating-point number of 64 bits keeps these digits and gives
/// them back: there are at most 15 of them, and the number is neither too
/// large nor too small.
pub open spec fn keeps_digits(digits: Seq<char>, p: int) -> bool {
    digits.len() <= 15 && -300 <= p <= 300
}

/// The finite number with these digits, written out without an exponent. There
/// is none where a number of 64 bits would not keep the digits.
pub open spec fn normal_real(
    negative: bool,
    whole: Seq<char>,
    fraction: Seq<char>,
    small: bool,
    exponent: Seq<char>,
) -> Option<RealView> {
    let all = strip_front_zeros(whole + fraction);
    let digits = strip_back_zeros(all);
    let sign = if negative {
        seq!['-']
    } else {
        Seq::empty()
    };
    if digits.len() == 0 {
        Some(RealView { text: sign + seq!['0'], sign: RealSign::NotPositive })
    } else {
        match exponent_value(small, exponent) {
            None => None,
            Some(e) => {
                let p = all.len() - fraction.len() + e;
                if keeps_digits(digits, p) {
                    Some(
                        RealView {
                            text: sign + written_out(digits, p),
                            sign: if negative {
                                RealSign::NotPositive
                            } else {
                                RealSign::Positive
                            },
                        },
                    )
                } else {
                    None
                }
            },
        }
    }
}

/// The finite number that an unsigned text spells: digits with at most one
/// point and at least one digit, then at most one power of ten.
pub open spec fn finite_real(negative: bool, b: Seq<char>) -> Option<RealView> {
    let i1 = digit_run(b, 0);
    let pointed = i1 < b.len() && b[i1] == '.';
    let i2 = if pointed {
        digit_run(b, i1 + 1)
    } else {
        i1
    };
    let whole = b.subrange(0, i1);
    let fraction = if pointed {
        b.subrange(i1 + 1, i2)
    } else {
        Seq::empty()
    };
    if whole.len() + fraction.len() == 0 {
        None
    } else if i2 == b.len() {
        normal_real(negative, whole, fraction, false, Seq::empty())
    } else if b[i2] == 'e' || b[i2] == 'E' {
        let signed = i2 + 1 < b.len() && (b[i2 + 1] == '+' || b[i2 + 1] == '-');
        let small = signed && b[i2 + 1] == '-';
        let j = if signed {
            i2 + 2
        } else {
            i2 + 1
        };
        let k = digit_run(b, j);
        if k > j && k == b.len() {
            normal_real(negative, whole, fraction, small, b.subrange(j, k))
        } else {
            None
        }
    } else {
        None
    }
}

/// The real number that a text spells: an optional sign, then a finite number.
/// Infinity and what is no number are refused, for which JSON has no literal,
/// and so is what a number of 64 bits would not keep.
pub open spec fn real_value(s: Seq<char>) -> Option<RealView> {
    let negative = s.len() > 0 && s[0] == '-';
    let b = if s.len() > 0 && (s[0] == '-' || s[0] == '+') {
        s.drop_first()
    } else {
        s
    };
    finite_real(negative, b)
}

proof fn lemma_strip_front(s: Seq<char>, i: int)
    requires
        0 <= i <= s.len(),
        forall|j: int| 0 <= j < i ==> s[j] == '0',
    ensures
        strip_front_zeros(s) == strip_front_zeros(s.skip(i)),
    decreases i,
{
    if i > 0 {
        lemma_strip_front(s.drop_first(), i - 1);
        assert(s.drop_first().skip(i - 1) =~= s.skip(i));
    } else {
        assert(s.skip(0) =~= s);
    }
}

proof fn lemma_strip_back(s: Seq<char>, k: int)
    requires
        0 <= k <= s.len(),
        forall|j: int| k <= j < s.len() ==> s[j] == '0',
    ensures
        strip_back_zeros(s) == strip_back_zeros(s.take(k)),
    decreases s.len() - k,
{
    if k < s.len() {
        lemma_strip_back(s.drop_last(), k);
        assert(s.drop_last().take(k) =~= s.take(k));
    } else {
        assert(s.take(k) =~= s);
    }
}

fn front_stripped(chars: &Vec<char>, from: usize, to: usize) -> (r: String)
    requires
        from <= to <= chars.len(),
    ensures
        r@ == strip_front_zeros(chars@.subrange(from as int, to as int)),
{
    let ghost whole = chars@.subrange(from as int, to as int);
    let mut i: usize = from;
    while i < to && chars[i] == '0'
        invariant
            from <= i <= to <= chars.len(),
            forall|j: int| from <= j < i ==> chars@[j] == '0',
        decreases to - i,
    {
        i += 1;
    }
    proof {
        lemma_strip_front(whole, i - from);
        assert(whole.skip(i - from) =~= chars@.subrange(i as int, to as int));
    }
    from_chars(chars, i, to)
}

fn back_stripped(chars: &Vec<char>, from: usize, to: usize) -> (r: String)
    requires
        from <= to <= chars.len(),
    ensures
        r@ == strip_back_zeros(chars@.subrange(from as int, to as int)),
{
    let ghost whole = chars@.subrange(from as int, to as int);
    let mut k: usize = to;
    while k > from && chars[k - 1] == '0'
        invariant
            from <= k <= to <= chars.len(),
            forall|j: int| k <= j < to ==> chars@[j] == '0',
        decreases k,
    {
        k -= 1;
    }
    proof {
        lemma_strip_back(whole, k - from);
        assert(whole.take(k - from) =~= chars@.subrange(from as int, k as int));
    }
    from_chars(chars, from, k)
}

/// Adds zeros to a text.
fn add_zeros(out: &mut String, n: usize)
    ensures
        final(out)@ == old(out)@ + zeros(n as nat),
{
    let ghost before = out@;
    let mut i: usize = 0;
    assert(before + zeros(0) =~= before);
    while i < n
        invariant
            i <= n,
            out@ == before + zeros(i as nat),
        decreases n - i,
    {
        out.push('0');
        i += 1;
        assert(out@ =~= before + zeros(i as nat));
    }
}

fn write_out(out: &mut String, digits: &Vec<char>, p: i32)
    requires
        digits.len() <= 15,
        -300 <= p <= 300,
    ensures
        final(out)@ == old(out)@ + written_out(digits@, p as int),
{
    let ghost before = out@;
    if p <= 0 {
        out.push('0');
        out.push('.');
        add_zeros(out, (-p) as usize);
        out.append(from_chars(digits, 0, digits.len()).as_str());
    } else if p as usize >= digits.len() {
        out.append(from_chars(digits, 0, digits.len()).as_str());
        add_zeros(out, p as usize - digits.len());
    } else {
        let k: usize = p as usize;
        out.append(from_chars(digits, 0, k).as_str());
        out.push('.');
        out.append(from_chars(digits, k, digits.len()).as_str());
    }
    assert(out@ =~= before + written_out(digits@, p as int));
}

fn read_exponent(small: bool, digits: &str) -> (r: Option<i32>)
    ensures
        r is Some <==> exponent_value(small, digits@) is Some,
        r is Some ==> exponent_value(small, digits@) == Some(r->0 as int),
        r is Some ==> -9999 <= r->0 <= 9999,
{
    let chars = to_chars(digits);
    let e = front_stripped(&chars, 0, chars.len());
    assert(chars@.subrange(0, chars@.len() as int) =~= digits@);
    if e.as_str().is_empty() {
        return Some(0);
    }
    match parse_unsigned(e.as_str(), 9999) {
        Some(n) => Some(
            if small {
                -(n as i32)
            } else {
                n as i32
            },
        ),
        None => None,
    }
}

fn build_real(
    negative: bool,
    whole: &str,
    fraction: &str,
    small: bool,
    exponent: &str,
) -> (r: Option<Real>)
    ensures
        r is Some <==> normal_real(negative, whole@, fraction@, small, exponent@) is Some,
        r is Some ==> normal_real(negative, whole@, fraction@, small, exponent@) == Some(r->0@),
{
    let mut both = crate::text::owned(whole);
    both.append(fraction);
    let chars = to_chars(both.as_str());
    let stripped = front_stripped(&chars, 0, chars.len());
    assert(chars@.subrange(0, chars@.len() as int) =~= whole@ + fraction@);
    let all = to_chars(stripped.as_str());
    let kept = back_stripped(&all, 0, all.len());
    assert(all@.subrange(0, all@.len() as int) =~= all@);
    let digits = to_chars(kept.as_str());
    let mut text = String::new();
    if negative {
        text.push('-');
    }
    if digits.len() == 0 {
        text.push('0');
        assert(text@ =~= normal_real(negative, whole@, fraction@, small, exponent@)->0.text);
        return Some(Real { text, sign: RealSign::NotPositive });
    }
    let e: i32 = match read_exponent(small, exponent) {
        Some(e) => e,
        None => {
            return None;
        },
    };
    let f = to_chars(fraction);
    let p: i128 = all.len() as i128 - f.len() as i128 + e as i128;
    if digits.len() > 15 || p < -300 || p > 300 {
        return None;
    }
    write_out(&mut text, &digits, p as i32);
    let sign = if negative {
        RealSign::NotPositive
    } else {
        RealSign::Positive
    };
    assert(text@ =~= normal_real(negative, whole@, fraction@, small, exponent@)->0.text);
    Some(Real { text, sign })
}

fn parse_finite(negative: bool, chars: &Vec<char>) -> (r: Option<Real>)
    ensures
        r is Some <==> finite_real(negative, chars@) is Some,
        r is Some ==> Some(r->0@) == finite_real(negative, chars@),
{
    let i1: usize = run_of_digits(chars, 0);
    let pointed = i1 < chars.len() && chars[i1] == '.';
    let f0: usize = if pointed {
        i1 + 1
    } else {
        i1
    };
    let i2: usize = if pointed {
        run_of_digits(chars, f0)
    } else {
        i1
    };
    if i1 == 0 && i2 == f0 {
        return None;
    }
    let whole = from_chars(chars, 0, i1);
    let fraction = from_chars(chars, f0, i2);
    proof {
        if !pointed {
            assert(chars@.subrange(f0 as int, i2 as int) =~= Seq::empty());
        }
    }
    if i2 == chars.len() {
        let none = String::new();
        assert(none@ =~= Seq::empty());
        return build_real(negative, whole.as_str(), fraction.as_str(), false, none.as_str());
    }
    let e = chars[i2];
    if !(e == 'e' || e == 'E') {
        return None;
    }
    let signed = i2 + 1 < chars.len() && (chars[i2 + 1] == '+' || chars[i2 + 1] == '-');
    let small = signed && chars[i2 + 1] == '-';
    let j: usize = if signed {
        i2 + 2
    } else {
        i2 + 1
    };
    let k: usize = run_of_digits(chars, j);
    if !(k > j && k == chars.len()) {
        return None;
    }
    let exponent = from_chars(chars, j, k);
    build_real(negative, whole.as_str(), fraction.as_str(), small, exponent.as_str())
}

/// Reads a real number.
pub fn parse_real(s: &str) -> (r: Option<Real>)
    ensures
        r is Some <==> real_value(s@) is Some,
        r is Some ==> Some(r->0@) == real_value(s@),
{
    let chars = to_chars(s);
    let negative = chars.len() > 0 && chars[0] == '-';
    let start: usize = if chars.len() > 0 && (chars[0] == '-' || chars[0] == '+') {
        1
    } else {
        0
    };
    let body = from_chars(&chars, start, chars.len());
    let ghost b = if s@.len() > 0 && (s@[0] == '-' || s@[0] == '+') {
        s@.drop_first()
    } else {
        s@
    };
    assert(body@ =~= b);
    let rest = to_chars(body.as_str());
    parse_finite(negative, &rest)
}

// ── What a written number is read as ─────────────────────────────────
proof fn lemma_no_front_zero(s: Seq<char>)
    ensures
        strip_front_zeros(s).len() > 0 ==> strip_front_zeros(s)[0] != '0',
        strip_front_zeros(s).len() <= s.len(),
        strip_front_zeros(s) == s.skip(s.len() - strip_front_zeros(s).len()),
    decreases s.len(),
{
    if s.len() > 0 && s[0] == '0' {
        let t = s.drop_first();
        lemma_no_front_zero(t);
        let n = t.len() - strip_front_zeros(t).len();
        assert(t.skip(n) =~= s.skip(n + 1));
    } else {
        assert(s.skip(0) =~= s);
    }
}

proof fn lemma_no_back_zero(s: Seq<char>)
    ensures
        strip_back_zeros(s).len() > 0 ==> strip_back_zeros(s).last() != '0',
        strip_back_zeros(s).len() <= s.len(),
        strip_back_zeros(s) == s.take(strip_back_zeros(s).len() as int),
    decreases s.len(),
{
    if s.len() > 0 && s.last() == '0' {
        let t = s.drop_last();
        lemma_no_back_zero(t);
        assert(t.take(strip_back_zeros(t).len() as int) =~= s.take(
            strip_back_zeros(t).len() as int,
        ));
    } else {
        assert(s.take(s.len() as int) =~= s);
    }
}

proof fn lemma_strip_zeros(n: nat, d: Seq<char>)
    requires
        d.len() > 0,
        d[0] != '0',
        d.last() != '0',
    ensures
        strip_front_zeros(zeros(n) + d) == d,
        strip_back_zeros(d + zeros(n)) == d,
{
    let a = zeros(n) + d;
    lemma_strip_front(a, n as int);
    assert(a.skip(n as int) =~= d);
    let b = d + zeros(n);
    lemma_strip_back(b, d.len() as int);
    assert(b.take(d.len() as int) =~= d);
}

proof fn lemma_run_over(s: Seq<char>, i: int, k: int)
    requires
        0 <= i <= k <= s.len(),
        forall|j: int| i <= j < k ==> is_digit(#[trigger] s[j]),
        k == s.len() || !is_digit(s[k]),
    ensures
        digit_run(s, i) == k,
    decreases k - i,
{
    if i < k {
        lemma_run_over(s, i + 1, k);
    }
}

/// Digits that are written out are read as what they are, in the same words.
proof fn lemma_written_out_is_read(negative: bool, d: Seq<char>, p: int)
    requires
        d.len() > 0,
        d[0] != '0',
        d.last() != '0',
        all_digits(d),
        keeps_digits(d, p),
    ensures
        finite_real(negative, written_out(d, p)) matches Some(x) && x.text == (if negative {
            seq!['-']
        } else {
            Seq::empty()
        }) + written_out(d, p),
{
    let b = written_out(d, p);
    let none = Seq::<char>::empty();
    assert forall|j: int| 0 <= j < d.len() implies is_digit(#[trigger] d[j]) by {}
    assert(strip_front_zeros(none) == none);
    if p <= 0 {
        let n = (-p) as nat;
        let f = zeros(n) + d;
        lemma_run_over(b, 0, 1);
        assert forall|j: int| 2 <= j < b.len() implies is_digit(#[trigger] b[j]) by {
            assert(b[j] == f[j - 2]);
        }
        lemma_run_over(b, 2, b.len() as int);
        assert(b.subrange(0, 1) =~= seq!['0']);
        assert(b.subrange(2, b.len() as int) =~= f);
        let all = seq!['0'] + f;
        assert(all =~= zeros(n + 1) + d);
        lemma_strip_zeros(n + 1, d);
        lemma_strip_zeros(0, d);
        assert(d + zeros(0) =~= d);
    } else if p >= d.len() {
        let n = (p - d.len()) as nat;
        assert forall|j: int| 0 <= j < b.len() implies is_digit(#[trigger] b[j]) by {
            if j < d.len() {
                assert(b[j] == d[j]);
            }
        }
        lemma_run_over(b, 0, b.len() as int);
        assert(b.subrange(0, b.len() as int) =~= b);
        assert(b + none =~= b);
        assert(b[0] == d[0]);
        assert(strip_front_zeros(b) == b);
        lemma_strip_zeros(n, d);
    } else {
        let w = d.take(p);
        let f = d.skip(p);
        assert forall|j: int| 0 <= j < b.len() && j != p implies is_digit(#[trigger] b[j]) by {
            if j < p {
                assert(b[j] == d[j]);
            } else {
                assert(b[j] == d[j - 1]);
            }
        }
        assert(b[p] == '.');
        lemma_run_over(b, 0, p);
        lemma_run_over(b, p + 1, b.len() as int);
        assert(b.subrange(0, p) =~= w);
        assert(b.subrange(p + 1, b.len() as int) =~= f);
        assert(w + f =~= d);
        assert(strip_front_zeros(d) == d);
        lemma_strip_zeros(0, d);
        assert(d + zeros(0) =~= d);
    }
}

/// The digits of a number that was read.
pub proof fn lemma_real_shape(s: Seq<char>) -> (r: (bool, Seq<char>, int))
    requires
        real_value(s) is Some,
    ensures
        ({
            let (negative, d, p) = r;
            let sign = if negative {
                seq!['-']
            } else {
                Seq::empty()
            };
            &&& d.len() > 0 ==> d[0] != '0' && d.last() != '0' && all_digits(d) && keeps_digits(
                d,
                p,
            )
            &&& real_value(s)->0.text == sign + (if d.len() == 0 {
                seq!['0']
            } else {
                written_out(d, p)
            })
        }),
{
    let negative = s.len() > 0 && s[0] == '-';
    let b = if s.len() > 0 && (s[0] == '-' || s[0] == '+') {
        s.drop_first()
    } else {
        s
    };
    let i1 = digit_run(b, 0);
    lemma_digit_run(b, 0);
    let pointed = i1 < b.len() && b[i1] == '.';
    if pointed {
        lemma_digit_run(b, i1 + 1);
    }
    let i2 = if pointed {
        digit_run(b, i1 + 1)
    } else {
        i1
    };
    let whole = b.subrange(0, i1);
    let fraction = if pointed {
        b.subrange(i1 + 1, i2)
    } else {
        Seq::empty()
    };
    let both = whole + fraction;
    assert forall|j: int| 0 <= j < both.len() implies is_digit(#[trigger] both[j]) by {
        if j < whole.len() {
            assert(both[j] == b[j]);
        } else {
            assert(both[j] == b[i1 + 1 + (j - whole.len())]);
        }
    }
    let all = strip_front_zeros(both);
    let d = strip_back_zeros(all);
    lemma_no_front_zero(both);
    lemma_no_back_zero(all);
    assert forall|j: int| 0 <= j < d.len() implies is_digit(#[trigger] d[j]) by {
        assert(d[j] == all[j]);
        assert(all[j] == both[j + (both.len() - all.len())]);
    }
    if d.len() > 0 {
        assert(d[0] == all[0]);
    }
    let e = if i2 == b.len() {
        0
    } else {
        let signed = i2 + 1 < b.len() && (b[i2 + 1] == '+' || b[i2 + 1] == '-');
        let small = signed && b[i2 + 1] == '-';
        let j = if signed {
            i2 + 2
        } else {
            i2 + 1
        };
        let k = digit_run(b, j);
        exponent_value(small, b.subrange(j, k))->0
    };
    let p = all.len() - fraction.len() + e;
    assert(strip_front_zeros(Seq::<char>::empty()) == Seq::<char>::empty());
    (negative, d, p)
}

proof fn lemma_digit_run(s: Seq<char>, i: int)
    requires
        0 <= i <= s.len(),
    ensures
        i <= digit_run(s, i) <= s.len(),
        forall|j: int| i <= j < digit_run(s, i) ==> is_digit(#[trigger] s[j]),
    decreases s.len() - i,
{
    if i < s.len() && is_digit(s[i]) {
        lemma_digit_run(s, i + 1);
    }
}

/// A number that was read and is written again is read as the same number.
pub proof fn lemma_real_is_kept(s: Seq<char>)
    requires
        real_value(s) is Some,
    ensures
        real_value(real_value(s)->0.text) matches Some(x) && x.text == real_value(s)->0.text,
{
    let (negative, d, p) = lemma_real_shape(s);
    let t = real_value(s)->0.text;
    let b = if d.len() == 0 {
        seq!['0']
    } else {
        written_out(d, p)
    };
    if d.len() > 0 {
        lemma_written_out_is_read(negative, d, p);
        assert(b[0] != '-' && b[0] != '+') by {
            if p > 0 {
                assert(b[0] == d[0]);
                assert(is_digit(d[0]));
            }
        }
    } else {
        let none = Seq::<char>::empty();
        lemma_run_over(b, 0, 1);
        assert(b.subrange(0, 1) =~= seq!['0']);
        assert(seq!['0'] + none =~= seq!['0']);
        assert(strip_front_zeros(seq!['0']) =~= none) by {
            assert(seq!['0'].drop_first() =~= none);
        }
        assert(strip_back_zeros(none) == none);
    }
    if negative {
        assert(t.drop_first() =~= b);
    } else {
        assert(t =~= b);
    }
}

} // verus!
