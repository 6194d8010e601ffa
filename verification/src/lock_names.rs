//! What the names of locks keep apart: every byte of an endpoint counts.
use crate::lock_manager::{
    endpoint, fnv1a, fnv_from, has_lock_name, hex_char, hexadecimal, lock_path,
};
use crate::path::joined_path;
use vstd::arithmetic::div_mod::{lemma_mod_multiples_vanish, lemma_mul_mod_noop_left};
use vstd::prelude::*;
use vstd::utf8::encode_utf8;
use vstd::wrapping::u64_specs::wrapping_mul;

verus! {

// ── One byte more ────────────────────────────────────────────────────
proof fn lemma_carried_on(bytes: Seq<u8>, more: Seq<u8>, i: int, h: u64)
    requires
        0 <= i <= bytes.len(),
    ensures
        fnv_from(bytes + more, i, h) == fnv_from(
            bytes + more,
            bytes.len() as int,
            fnv_from(bytes, i, h),
        ),
    decreases bytes.len() - i,
{
    let all = bytes + more;
    if i < bytes.len() {
        assert(all[i] == bytes[i]);
        lemma_carried_on(bytes, more, i + 1, wrapping_mul(h ^ (bytes[i] as u64), 0x100000001b3u64));
    }
}

/// The hash of no bytes is the hash that was begun with.
pub proof fn lemma_hash_of_nothing(h: u64)
    ensures
        fnv_from(Seq::empty(), 0, h) == h,
{
}

/// The hash of some bytes and one more is one step over the hash of the bytes,
/// however many there are: the byte is mixed in, then the product with the
/// prime is taken.
pub proof fn lemma_hash_of_one_more(bytes: Seq<u8>, b: u8, h: u64)
    ensures
        fnv_from(bytes.push(b), 0, h) == wrapping_mul(
            fnv_from(bytes, 0, h) ^ (b as u64),
            0x100000001b3u64,
        ),
{
    let all = bytes.push(b);
    assert(all =~= bytes + seq![b]);
    lemma_carried_on(bytes, seq![b], 0, h);
    let n = bytes.len() as int;
    let g = fnv_from(bytes, 0, h);
    assert(all[n] == b);
    let next = wrapping_mul(g ^ (b as u64), 0x100000001b3u64);
    assert(fnv_from(all, n, g) == fnv_from(all, n + 1, next));
    assert(fnv_from(all, n + 1, next) == next);
}

/// The hash of a text is that of its bytes in UTF-8, from the number that
/// FNV-1a begins with.
pub proof fn lemma_hash_of_text(s: Seq<char>)
    ensures
        fnv1a(s) == fnv_from(encode_utf8(s), 0, 0xcbf29ce484222325),
        encode_utf8(s).len() == 0 ==> fnv1a(s) == 0xcbf29ce484222325u64,
{
}

// ── One byte that differs ────────────────────────────────────────────
proof fn lemma_back_from_product(x: u64)
    ensures
        (wrapping_mul(x, 0x100000001b3u64) as int * 0xce965057aff6957bint) % 0x1_0000_0000_0000_0000int
            == x as int,
{
    let n = 0x1_0000_0000_0000_0000int;
    let p = 0x100000001b3int;
    let q = 0xce965057aff6957bint;
    let k = 887285111055int;
    assert(p * q == k * n + 1);
    let y = x as int;
    assert(wrapping_mul(x, 0x100000001b3u64) as int == (y * p) % n);
    lemma_mul_mod_noop_left(y * p, q, n);
    assert(y * p * q == n * (y * k) + y) by (nonlinear_arith)
        requires
            p * q == k * n + 1,
    ;
    lemma_mod_multiples_vanish(y * k, y, n);
}

/// Two products with the prime are the same only where the factors are.
pub proof fn lemma_products_differ(x: u64, y: u64)
    requires
        x != y,
    ensures
        wrapping_mul(x, 0x100000001b3u64) != wrapping_mul(y, 0x100000001b3u64),
{
    lemma_back_from_product(x);
    lemma_back_from_product(y);
}

/// Hashes that differ still differ after the same bytes.
pub proof fn lemma_hashes_stay_apart(bytes: Seq<u8>, g: u64, h: u64)
    requires
        g != h,
    ensures
        fnv_from(bytes, 0, g) != fnv_from(bytes, 0, h),
    decreases bytes.len(),
{
    if bytes.len() == 0 {
        assert(bytes =~= Seq::empty());
        lemma_hash_of_nothing(g);
        lemma_hash_of_nothing(h);
    } else {
        let front = bytes.drop_last();
        let b = bytes.last() as u64;
        assert(bytes =~= front.push(bytes.last()));
        lemma_hashes_stay_apart(front, g, h);
        lemma_hash_of_one_more(front, bytes.last(), g);
        lemma_hash_of_one_more(front, bytes.last(), h);
        let x = fnv_from(front, 0, g);
        let y = fnv_from(front, 0, h);
        assert(x ^ b != y ^ b) by (bit_vector)
            requires
                x != y,
        ;
        lemma_products_differ(x ^ b, y ^ b);
    }
}

/// Every byte counts: bytes of one length that differ in one place alone have
/// different hashes.
pub proof fn lemma_every_byte_counts(a: Seq<u8>, b: Seq<u8>, k: int, h: u64)
    requires
        0 <= k < a.len(),
        a.len() == b.len(),
        a[k] != b[k],
        forall|i: int| 0 <= i < a.len() && i != k ==> a[i] == b[i],
    ensures
        fnv_from(a, 0, h) != fnv_from(b, 0, h),
    decreases a.len() - k,
{
    let (c, d) = (a.drop_last(), b.drop_last());
    assert(a =~= c.push(a.last()));
    assert(b =~= d.push(b.last()));
    lemma_hash_of_one_more(c, a.last(), h);
    lemma_hash_of_one_more(d, b.last(), h);
    let x = fnv_from(c, 0, h);
    let y = fnv_from(d, 0, h);
    let (u, v) = (a.last(), b.last());
    if k == a.len() - 1 {
        assert(c =~= d);
        assert(x ^ (u as u64) != x ^ (v as u64)) by (bit_vector)
            requires
                u != v,
        ;
    } else {
        lemma_every_byte_counts(c, d, k, h);
        let w = u as u64;
        assert(x ^ w != y ^ w) by (bit_vector)
            requires
                x != y,
        ;
    }
    lemma_products_differ(x ^ (u as u64), y ^ (v as u64));
}

/// Endpoints that differ in one byte alone have different hashes.
pub proof fn lemma_endpoints_have_their_hashes(
    host: Seq<char>,
    target: Seq<char>,
    other_host: Seq<char>,
    other_target: Seq<char>,
    k: int,
)
    requires
        ({
            let a = encode_utf8(endpoint(host, target));
            let b = encode_utf8(endpoint(other_host, other_target));
            &&& 0 <= k < a.len()
            &&& a.len() == b.len()
            &&& a[k] != b[k]
            &&& forall|i: int| 0 <= i < a.len() && i != k ==> a[i] == b[i]
        }),
    ensures
        fnv1a(endpoint(host, target)) != fnv1a(endpoint(other_host, other_target)),
{
    lemma_every_byte_counts(
        encode_utf8(endpoint(host, target)),
        encode_utf8(endpoint(other_host, other_target)),
        k,
        0xcbf29ce484222325,
    );
}

// ── The digits of a name ─────────────────────────────────────────────
/// The value of a hexadecimal digit in small letters.
pub open spec fn hex_digit(c: char) -> int {
    if '0' <= c <= '9' {
        c as int - '0' as int
    } else if 'a' <= c <= 'f' {
        c as int - 'a' as int + 10
    } else {
        -1
    }
}

/// The number that hexadecimal digits spell.
pub open spec fn hex_number(s: Seq<char>) -> int
    decreases s.len(),
{
    if s.len() == 0 {
        0
    } else {
        hex_number(s.drop_last()) * 16 + hex_digit(s.last())
    }
}

/// Whether a text is made of hexadecimal digits.
pub open spec fn all_hex(s: Seq<char>) -> bool {
    forall|i: int| 0 <= i < s.len() ==> 0 <= hex_digit(#[trigger] s[i]) < 16
}

/// The digits of a number spell it, and there is no zero before the first but
/// that of zero itself.
pub proof fn lemma_hex_spells(n: nat)
    ensures
        hexadecimal(n).len() > 0,
        all_hex(hexadecimal(n)),
        hex_number(hexadecimal(n)) == n,
        n > 0 ==> hexadecimal(n)[0] != '0',
    decreases n,
{
    let s = hexadecimal(n);
    assert forall|d: nat| d < 16 implies hex_digit(#[trigger] hex_char(d)) == d by {}
    if n < 16 {
        assert(s.drop_last() =~= Seq::<char>::empty());
        assert(hex_number(s.drop_last()) == 0);
        assert(hex_digit(hex_char(n)) == n);
    } else {
        lemma_hex_spells(n / 16);
        let front = hexadecimal(n / 16);
        assert(s.drop_last() =~= front);
        assert(hex_digit(hex_char(n % 16)) == n % 16);
        assert forall|i: int| 0 <= i < s.len() implies 0 <= hex_digit(#[trigger] s[i]) < 16 by {
            if i < front.len() {
                assert(s[i] == front[i]);
            }
        }
        assert(s[0] == front[0]);
    }
}

/// The name of a lock is made of the first eight digits of the hash of its
/// endpoint, and stands in the directory of the locks.
pub proof fn lemma_lock_name(host: Seq<char>, target: Seq<char>, dir: Seq<char>)
    requires
        has_lock_name(host, target),
    ensures
        ({
            let digits = hexadecimal(fnv1a(host + ":"@ + target) as nat);
            let name = digits.take(8) + ".lock"@;
            &&& digits.len() >= 8
            &&& all_hex(digits.take(8))
            &&& lock_path(host, target, dir) == joined_path(dir, name)
            &&& lock_path(host, target, dir).len() >= name.len()
            &&& lock_path(host, target, dir).skip(
                lock_path(host, target, dir).len() - name.len(),
            ) == name
            &&& lock_path(host, target, dir).take(dir.len() as int) == dir
        }),
{
    let n = fnv1a(endpoint(host, target)) as nat;
    let digits = hexadecimal(n);
    reveal_with_fuel(hexadecimal, 9);
    lemma_hex_spells(n);
    let name = digits.take(8) + ".lock"@;
    reveal_strlit(".lock");
    assert(0 <= hex_digit(digits[0]) < 16);
    assert(name[0] == digits[0]);
    let p = lock_path(host, target, dir);
    assert(p.skip(p.len() - name.len()) =~= name);
    assert(p.take(dir.len() as int) =~= dir);
    assert forall|i: int| 0 <= i < 8 implies 0 <= hex_digit(#[trigger] digits.take(8)[i]) < 16 by {
        assert(digits.take(8)[i] == digits[i]);
    }
}

} // verus!
