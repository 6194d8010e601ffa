//! The pass over a text finds its values where the grammar has them.
use crate::config::{member, member_from};
use crate::jsonc::{
    code_unit, comment_close, document, is_blank, items_at, member_at, members_at, number_close,
    short_escape, skip, string_from, unicode_escape, value_at, JsonView,
};
use crate::locate::{
    after_close, after_open, after_scalar, after_string, block_end, bracket_from, bytewise,
    child_path, close_at, counted, escape_meaning, hex4, hex_number, hex_value, is_number_char,
    key_from, key_span, line_end, number_end, open_at, scalar_text, scan, scan_from, scan_start,
    string_end, unescaped_from, value_from, value_span, word_at, word_end, FrameView, ScanView,
    SegView, SpansView,
};
use crate::number::{digit_run, is_digit};
use crate::pieces::Members;
use vstd::prelude::*;

verus! {

// ── Tokens ───────────────────────────────────────────────────────────
/// Where the tokens begin, the pass over the text begins to find something.
pub proof fn lemma_skip_finds_nothing(s: Seq<char>, i: int, st: ScanView)
    requires
        0 <= i <= s.len(),
        skip(s, i) is Some,
    ensures
        scan_from(s, i, st) == scan_from(s, skip(s, i)->0, st),
        i <= skip(s, i)->0 <= s.len(),
    decreases s.len() - i,
{
    if i < s.len() {
        if is_blank(s[i]) {
            assert(word_end(s, i) is None) by {
                lemma_no_word(s, i);
            }
            lemma_skip_finds_nothing(s, i + 1, st);
        } else if s[i] == '/' && i + 1 < s.len() && s[i + 1] == '/' {
            lemma_skip_finds_nothing(s, line_end(s, i), st);
        } else if s[i] == '/' && i + 1 < s.len() && s[i + 1] == '*' {
            lemma_comment_close(s, i + 2);
            lemma_skip_finds_nothing(s, comment_close(s, i + 2)->0, st);
        }
    }
}

/// A comment that ends, ends where the pass says it does.
pub proof fn lemma_comment_close(s: Seq<char>, i: int)
    requires
        0 <= i,
        comment_close(s, i) is Some,
    ensures
        comment_close(s, i) == Some(block_end(s, i)),
    decreases s.len() - i,
{
    if i + 1 < s.len() && !(s[i] == '*' && s[i + 1] == '/') {
        lemma_comment_close(s, i + 1);
    }
}

pub proof fn lemma_no_word(s: Seq<char>, i: int)
    requires
        0 <= i < s.len(),
        s[i] != 't' && s[i] != 'f' && s[i] != 'n',
    ensures
        word_end(s, i) is None,
{
    if word_at(s, i, seq!['t', 'r', 'u', 'e']) {
        assert(s.subrange(i, i + 4)[0] == s[i]);
    }
    if word_at(s, i, seq!['f', 'a', 'l', 's', 'e']) {
        assert(s.subrange(i, i + 5)[0] == s[i]);
    }
    if word_at(s, i, seq!['n', 'u', 'l', 'l']) {
        assert(s.subrange(i, i + 4)[0] == s[i]);
    }
}

/// A comma or a colon is passed over.
proof fn lemma_pass_over(s: Seq<char>, i: int, st: ScanView)
    requires
        0 <= i < s.len(),
        s[i] == ',' || s[i] == ':',
    ensures
        scan_from(s, i, st) == scan_from(s, i + 1, st),
{
    lemma_no_word(s, i);
}

proof fn lemma_hex_is_inside(s: Seq<char>, i: int)
    requires
        0 <= i,
        code_unit(s, i) is Some,
    ensures
        string_end(s, i) == string_end(s, i + 4),
{
    assert(string_end(s, i) == string_end(s, i + 1));
    assert(string_end(s, i + 1) == string_end(s, i + 2));
    assert(string_end(s, i + 2) == string_end(s, i + 3));
    assert(string_end(s, i + 3) == string_end(s, i + 4));
}

/// A string ends where the pass says it does.
pub proof fn lemma_string_token(s: Seq<char>, i: int, before: Seq<char>)
    requires
        string_from(s, i, before) is Some,
    ensures
        ({
            let (t, e) = string_from(s, i, before)->0;
            &&& string_end(s, i) == e
            &&& 0 <= i < e <= s.len()
            &&& s[e - 1] == '"'
            &&& before.len() <= t.len()
            &&& t.take(before.len() as int) == before
        }),
    decreases s.len() - i,
{
    let (t, e) = string_from(s, i, before)->0;
    if s[i] == '"' {
        assert(t.take(before.len() as int) =~= before);
    } else if s[i] == '\\' {
        if s[i + 1] == 'u' {
            let (c, n) = unicode_escape(s, i + 2)->0;
            lemma_string_token(s, n, before.push(c));
            lemma_hex_is_inside(s, i + 2);
            if n == i + 12 {
                assert(string_end(s, i + 6) == string_end(s, i + 8));
                lemma_hex_is_inside(s, i + 8);
            }
            assert(t.take(before.len() as int) =~= before.push(c).take(before.len() as int));
            assert(before.push(c).take(before.len() as int) =~= before);
        } else {
            let c = short_escape(s[i + 1])->0;
            lemma_string_token(s, i + 2, before.push(c));
            assert(t.take(before.len() as int) =~= before.push(c).take(before.len() as int));
            assert(before.push(c).take(before.len() as int) =~= before);
        }
    } else {
        lemma_string_token(s, i + 1, before.push(s[i]));
        assert(t.take(before.len() as int) =~= before.push(s[i]).take(before.len() as int));
        assert(before.push(s[i]).take(before.len() as int) =~= before);
    }
}

/// A member name of printable ASCII characters.
pub open spec fn is_name(t: Seq<char>) -> bool {
    forall|k: int| 0 <= k < t.len() ==> 32 <= (#[trigger] t[k]) as nat <= 126
}

proof fn lemma_hex4(s: Seq<char>, i: int, x: Seq<char>)
    requires
        0 <= i,
        code_unit(s, i) is Some,
        x.len() == 4,
        x[0] == s[i] && x[1] == s[i + 1] && x[2] == s[i + 2] && x[3] == s[i + 3],
    ensures
        hex4(x) == code_unit(s, i),
{
    assert(hex_value(s[i]) is Some);
    assert(x[0] != '+');
    let a = x.drop_first();
    let b = a.drop_first();
    let c = b.drop_first();
    assert(a[0] == s[i + 1] && b[0] == s[i + 2] && c[0] == s[i + 3]);
    assert(c.drop_first().len() == 0);
    reveal_with_fuel(hex_number, 5);
}

proof fn lemma_name_char(x: char)
    requires
        32 <= x as nat <= 126,
    ensures
        bytewise(x) == seq![x],
{
}

/// An escape that the grammar takes for a printable character is taken for it
/// by the pass too.
proof fn lemma_name_escape(c: char)
    requires
        short_escape(c) matches Some(x) && 32 <= x as nat <= 126,
    ensures
        escape_meaning(c) == seq![short_escape(c)->0],
{
    lemma_name_char(c);
}

proof fn lemma_name_unicode(s: Seq<char>, i: int, c: Seq<char>, j: int)
    requires
        0 <= i,
        unicode_escape(s, i) matches Some((x, _)) && x as nat <= 126,
        0 <= j,
        j + 4 <= c.len(),
        c[j] == s[i] && c[j + 1] == s[i + 1] && c[j + 2] == s[i + 2] && c[j + 3] == s[i + 3],
    ensures
        ({
            let (x, m) = unicode_escape(s, i)->0;
            &&& m == i + 4
            &&& hex4(c.subrange(j, j + 4)) is Some
            &&& scalar_text(hex4(c.subrange(j, j + 4))->0) == seq![x]
        }),
{
    let (x, m) = unicode_escape(s, i)->0;
    lemma_hex4(s, i, c.subrange(j, j + 4));
    let hi = code_unit(s, i)->0;
    if 0xd800 <= hi <= 0xdfff {
        let lo = code_unit(s, i + 6)->0;
        let code = 0x10000 + (hi - 0xd800) * 1024 + (lo - 0xdc00);
        assert(0x10000 <= code <= 0x10ffff);
        assert((code as char) as int == code);
    }
}

/// The pass spells a member name as the grammar does.
#[verifier::rlimit(40)]
#[verifier::spinoff_prover]
proof fn lemma_name_token(s: Seq<char>, b: int, i: int, before: Seq<char>)
    requires
        0 <= b <= i,
        string_from(s, i, before) is Some,
        ({
            let (t, e) = string_from(s, i, before)->0;
            is_name(t)
        }),
    ensures
        ({
            let (t, e) = string_from(s, i, before)->0;
            unescaped_from(s.subrange(b, e - 1), i - b) == t.skip(before.len() as int)
        }),
    decreases s.len() - i,
{
    let (t, e) = string_from(s, i, before)->0;
    let n = before.len() as int;
    lemma_string_token(s, i, before);
    let c = s.subrange(b, e - 1);
    let j = i - b;
    if s[i] == '"' {
        assert(c.len() == j);
        assert(t.skip(n) =~= Seq::empty());
    } else if s[i] == '\\' {
        if s[i + 1] == 'u' {
            let (x, m) = unicode_escape(s, i + 2)->0;
            lemma_next_char(s, m, before, x);
            lemma_name_token(s, b, m, before.push(x));
            assert(32 <= t[n] as nat <= 126);
            assert(c[j] == s[i] && c[j + 1] == s[i + 1]);
            assert(m >= i + 6);
            lemma_name_unicode(s, i + 2, c, j + 2);
            assert(t.skip(n) =~= seq![x] + t.skip(n + 1));
        } else {
            let x = short_escape(s[i + 1])->0;
            lemma_next_char(s, i + 2, before, x);
            lemma_name_token(s, b, i + 2, before.push(x));
            assert(32 <= t[n] as nat <= 126);
            assert(c[j] == s[i] && c[j + 1] == s[i + 1]);
            lemma_name_escape(s[i + 1]);
            assert(t.skip(n) =~= seq![x] + t.skip(n + 1));
        }
    } else {
        let x = s[i];
        lemma_next_char(s, i + 1, before, x);
        lemma_name_token(s, b, i + 1, before.push(x));
        assert(32 <= t[n] as nat <= 126);
        assert(c[j] == s[i]);
        lemma_name_char(x);
        assert(t.skip(n) =~= seq![x] + t.skip(n + 1));
    }
}

proof fn lemma_next_char(s: Seq<char>, m: int, before: Seq<char>, x: char)
    requires
        string_from(s, m, before.push(x)) is Some,
    ensures
        ({
            let (t, e) = string_from(s, m, before.push(x))->0;
            &&& before.len() < t.len()
            &&& t[before.len() as int] == x
            &&& 0 <= m < e <= s.len()
        }),
{
    lemma_string_token(s, m, before.push(x));
    let (t, e) = string_from(s, m, before.push(x))->0;
    let n = before.len() as int;
    assert(t.take(n + 1)[n] == before.push(x)[n]);
}

pub proof fn lemma_run_of_digits(s: Seq<char>, i: int)
    requires
        0 <= i,
    ensures
        i <= digit_run(s, i),
        i <= s.len() ==> digit_run(s, i) <= s.len(),
        forall|k: int| i <= k < digit_run(s, i) ==> is_number_char(#[trigger] s[k]),
    decreases s.len() - i,
{
    if i < s.len() && is_digit(s[i]) {
        lemma_run_of_digits(s, i + 1);
    }
}

proof fn lemma_number_end_at(s: Seq<char>, i: int, e: int)
    requires
        0 <= i <= e <= s.len(),
        forall|k: int| i <= k < e ==> is_number_char(#[trigger] s[k]),
        e < s.len() ==> !is_number_char(s[e]),
    ensures
        number_end(s, i) == e,
    decreases e - i,
{
    if i < e {
        assert(is_number_char(s[i]));
        lemma_number_end_at(s, i + 1, e);
    }
}

/// A number ends where the pass says it does, where nothing runs into it.
pub proof fn lemma_number_token(s: Seq<char>, i: int)
    requires
        0 <= i < s.len(),
        s[i] == '-' || is_digit(s[i]),
        number_close(s, i) is Some,
        number_close(s, i)->0 < s.len() ==> !is_number_char(s[number_close(s, i)->0]),
    ensures
        number_end(s, i) == number_close(s, i)->0,
        i < number_close(s, i)->0 <= s.len(),
{
    let e = number_close(s, i)->0;
    let w = if s[i] == '-' {
        i + 1
    } else {
        i
    };
    lemma_run_of_digits(s, w);
    assert(is_digit(s[w]));
    let wend = if s[w] == '0' {
        w + 1
    } else {
        digit_run(s, w)
    };
    lemma_run_of_digits(s, wend + 1);
    let fend = if wend < s.len() && s[wend] == '.' {
        digit_run(s, wend + 1)
    } else {
        wend
    };
    lemma_run_of_digits(s, fend + 1);
    lemma_run_of_digits(s, fend + 2);
    lemma_number_end_at(s, i, e);
}

// ── What stands at a path ────────────────────────────────────────────
/// A value without members or elements.
pub open spec fn is_scalar(j: JsonView) -> bool {
    !(j is Object) && !(j is Array)
}

/// The value at a path below a value.
pub open spec fn json_at(j: JsonView, path: Seq<SegView>) -> Option<JsonView>
    decreases path.len(),
{
    if path.len() == 0 {
        Some(j)
    } else {
        match (j, path[0]) {
            (JsonView::Object(m), SegView::Key(k)) => match member(m, k) {
                Some(x) => json_at(x, path.drop_first()),
                None => None,
            },
            (JsonView::Array(v), SegView::Index(n)) => if n < v.len() {
                json_at(v[n as int], path.drop_first())
            } else {
                None
            },
            _ => None,
        }
    }
}

/// Members with names of printable ASCII characters, no two the same.
pub open spec fn named(m: Members) -> bool {
    &&& forall|k: int| 0 <= k < m.len() ==> is_name((#[trigger] m[k]).0)
    &&& forall|k: int, l: int|
        0 <= k < l < m.len() ==> (#[trigger] m[k]).0 != (#[trigger] m[l]).0
}

/// Whether an object, where there is one, is well named.
pub open spec fn well_named(o: Option<JsonView>) -> bool {
    match o {
        Some(JsonView::Object(m)) => named(m),
        _ => true,
    }
}

/// A value in which every object is well named.
pub open spec fn tidy(j: JsonView) -> bool {
    forall|r: Seq<SegView>| well_named(#[trigger] json_at(j, r))
}

/// Whether a path leads through another one.
pub open spec fn under(p: Seq<SegView>, q: Seq<SegView>) -> bool {
    p.len() <= q.len() && q.take(p.len() as int) == p
}

// ── Where it stands ──────────────────────────────────────────────────
/// The entries of a container: for each its segment and where its value
/// begins.
pub type Entries = Seq<(SegView, int)>;

/// Where the value of the member begins whose key stands at `i`.
pub open spec fn member_spot(s: Seq<char>, i: int) -> int {
    match string_from(s, i + 1, Seq::empty()) {
        Some((_, k)) => match skip(s, k) {
            Some(c) => match skip(s, c + 1) {
                Some(v) => v,
                None => i,
            },
            None => i,
        },
        None => i,
    }
}

/// The members of an object from the token at `i` on, behind those in
/// `before`.
pub open spec fn member_entries(s: Seq<char>, i: int, before: Entries) -> Entries
    decreases s.len() - i,
{
    if i < 0 || i >= s.len() || s[i] != '"' {
        before
    } else {
        match member_at(s, i) {
            Some((name, _, m)) => if i < m < s.len() {
                let more = before.push((SegView::Key(name), member_spot(s, i)));
                if s[m] == ',' {
                    match skip(s, m + 1) {
                        Some(n) => if i < n <= s.len() {
                            member_entries(s, n, more)
                        } else {
                            more
                        },
                        None => more,
                    }
                } else {
                    more
                }
            } else {
                before
            },
            None => before,
        }
    }
}

/// The elements of an array from the token at `i` on, behind those in
/// `before`.
pub open spec fn item_entries(s: Seq<char>, i: int, before: Entries) -> Entries
    decreases s.len() - i,
{
    if i < 0 || i >= s.len() || s[i] == ']' {
        before
    } else {
        match value_at(s, i) {
            Some((_, e)) => match skip(s, e) {
                Some(m) => if i < m < s.len() {
                    let more = before.push((SegView::Index(before.len()), i));
                    if s[m] == ',' {
                        match skip(s, m + 1) {
                            Some(n) => if i < n <= s.len() {
                                item_entries(s, n, more)
                            } else {
                                more
                            },
                            None => more,
                        }
                    } else {
                        more
                    }
                } else {
                    before
                },
                None => before,
            },
            None => before,
        }
    }
}

/// The entries of the value at `i`.
pub open spec fn entries_at(s: Seq<char>, i: int) -> Entries {
    match skip(s, i + 1) {
        Some(j) => if s[i] == '{' {
            member_entries(s, j, Seq::empty())
        } else if s[i] == '[' {
            item_entries(s, j, Seq::empty())
        } else {
            Seq::empty()
        },
        None => Seq::empty(),
    }
}

/// Where the value of a segment begins, from entry `k` on.
pub open spec fn entry_from(es: Entries, a: SegView, k: int) -> Option<int>
    decreases es.len() - k,
{
    if k < 0 || k >= es.len() {
        None
    } else if es[k].0 == a {
        Some(es[k].1)
    } else {
        entry_from(es, a, k + 1)
    }
}

/// Where the value at a path begins below the value at `i`.
pub open spec fn place(s: Seq<char>, i: int, path: Seq<SegView>) -> Option<int>
    decreases path.len(),
{
    if path.len() == 0 {
        Some(i)
    } else {
        match entry_from(entries_at(s, i), path[0], 0) {
            Some(x) => place(s, x, path.drop_first()),
            None => None,
        }
    }
}

/// Where the value at a path begins below a container with these entries.
pub open spec fn placed(s: Seq<char>, es: Entries, path: Seq<SegView>) -> Option<int> {
    match entry_from(es, path[0], 0) {
        Some(x) => place(s, x, path.drop_first()),
        None => None,
    }
}

pub proof fn lemma_entry_pushed(es: Entries, x: (SegView, int), a: SegView, k: int)
    requires
        0 <= k <= es.len(),
    ensures
        entry_from(es.push(x), a, k) == (match entry_from(es, a, k) {
            Some(i) => Some(i),
            None => if x.0 == a {
                Some(x.1)
            } else {
                None
            },
        }),
    decreases es.len() - k,
{
    let n = es.push(x);
    if k < es.len() {
        assert(n[k] == es[k]);
        lemma_entry_pushed(es, x, a, k + 1);
    } else {
        assert(n[k] == x);
        assert(entry_from(n, a, k + 1) is None);
    }
}

pub proof fn lemma_entry_unknown(es: Entries, a: SegView, k: int)
    requires
        0 <= k,
        forall|l: int| 0 <= l < es.len() ==> (#[trigger] es[l]).0 != a,
    ensures
        entry_from(es, a, k) is None,
    decreases es.len() - k,
{
    if k < es.len() {
        assert(es[k].0 != a);
        lemma_entry_unknown(es, a, k + 1);
    }
}

// ── What is recorded ─────────────────────────────────────────────────
/// Whether the later record goes on from the earlier one.
spec fn grows(a: SpansView, b: SpansView) -> bool {
    &&& a.values.len() <= b.values.len()
    &&& forall|k: int| 0 <= k < a.values.len() ==> #[trigger] b.values[k] == a.values[k]
    &&& a.opens.len() <= b.opens.len()
    &&& forall|k: int| 0 <= k < a.opens.len() ==> #[trigger] b.opens[k] == a.opens[k]
    &&& a.closes.len() <= b.closes.len()
    &&& forall|k: int| 0 <= k < a.closes.len() ==> #[trigger] b.closes[k] == a.closes[k]
}

/// Whether everything that came in lies at or below a path, `n` segments down
/// at least.
spec fn came_under(a: SpansView, b: SpansView, p: Seq<SegView>, n: nat) -> bool {
    &&& forall|k: int|
        a.values.len() <= k < b.values.len() ==> under(p, (#[trigger] b.values[k]).0)
            && b.values[k].0.len() >= p.len() + n
    &&& forall|k: int|
        a.opens.len() <= k < b.opens.len() ==> under(p, (#[trigger] b.opens[k]).0)
            && b.opens[k].0.len() >= p.len() + n
    &&& forall|k: int|
        a.closes.len() <= k < b.closes.len() ==> under(p, (#[trigger] b.closes[k]).0)
            && b.closes[k].0.len() >= p.len() + n
}

/// Whether nothing that came in is recorded for a path.
spec fn came_without(a: SpansView, b: SpansView, q: Seq<SegView>) -> bool {
    &&& forall|k: int|
        a.values.len() <= k < b.values.len() ==> (#[trigger] b.values[k]).0 != q
    &&& forall|k: int| a.opens.len() <= k < b.opens.len() ==> (#[trigger] b.opens[k]).0 != q
    &&& forall|k: int| a.closes.len() <= k < b.closes.len() ==> (#[trigger] b.closes[k]).0 != q
}

/// What was recorded for a path since an earlier record.
spec fn found(old: SpansView, sp: SpansView, q: Seq<SegView>) -> (
    Option<(int, int)>,
    Option<int>,
    Option<int>,
) {
    (
        value_from(sp.values, q, old.values.len() as int),
        bracket_from(sp.opens, q, old.opens.len() as int),
        bracket_from(sp.closes, q, old.closes.len() as int),
    )
}

/// Whether what was recorded for a path is the value that begins at `o`: a
/// scalar by its span, a container by its brackets.
pub open spec fn shows(
    s: Seq<char>,
    f: (Option<(int, int)>, Option<int>, Option<int>),
    o: Option<int>,
) -> bool {
    match o {
        Some(a) => match value_at(s, a) {
            Some((x, b)) => if is_scalar(x) {
                f == (Some((a, b)), None::<int>, None::<int>)
            } else {
                f == (None::<(int, int)>, Some(a), Some((b - 1) as int))
            },
            None => false,
        },
        None => f == (None::<(int, int)>, None::<int>, None::<int>),
    }
}

pub proof fn lemma_values_later(
    v: Seq<(Seq<SegView>, int, int)>,
    w: Seq<(Seq<SegView>, int, int)>,
    q: Seq<SegView>,
    i: int,
)
    requires
        0 <= i <= v.len() <= w.len(),
        forall|k: int| 0 <= k < v.len() ==> #[trigger] w[k] == v[k],
    ensures
        value_from(v, q, i) is Some ==> value_from(w, q, i) == value_from(v, q, i),
        value_from(v, q, i) is None ==> value_from(w, q, i) == value_from(w, q, v.len() as int),
    decreases v.len() - i,
{
    if i < v.len() {
        assert(w[i] == v[i]);
        lemma_values_later(v, w, q, i + 1);
    }
}

proof fn lemma_values_without(w: Seq<(Seq<SegView>, int, int)>, q: Seq<SegView>, i: int)
    requires
        0 <= i,
        forall|k: int| i <= k < w.len() ==> (#[trigger] w[k]).0 != q,
    ensures
        value_from(w, q, i) is None,
    decreases w.len() - i,
{
    if i < w.len() {
        assert(w[i].0 != q);
        lemma_values_without(w, q, i + 1);
    }
}

proof fn lemma_brackets_later(
    v: Seq<(Seq<SegView>, int)>,
    w: Seq<(Seq<SegView>, int)>,
    q: Seq<SegView>,
    i: int,
)
    requires
        0 <= i <= v.len() <= w.len(),
        forall|k: int| 0 <= k < v.len() ==> #[trigger] w[k] == v[k],
    ensures
        bracket_from(v, q, i) is Some ==> bracket_from(w, q, i) == bracket_from(v, q, i),
        bracket_from(v, q, i) is None ==> bracket_from(w, q, i) == bracket_from(
            w,
            q,
            v.len() as int,
        ),
    decreases v.len() - i,
{
    if i < v.len() {
        assert(w[i] == v[i]);
        lemma_brackets_later(v, w, q, i + 1);
    }
}

proof fn lemma_brackets_without(w: Seq<(Seq<SegView>, int)>, q: Seq<SegView>, i: int)
    requires
        0 <= i,
        forall|k: int| i <= k < w.len() ==> (#[trigger] w[k]).0 != q,
    ensures
        bracket_from(w, q, i) is None,
    decreases w.len() - i,
{
    if i < w.len() {
        assert(w[i].0 != q);
        lemma_brackets_without(w, q, i + 1);
    }
}

/// What came in later does not change what was found.
proof fn lemma_found_stays(old: SpansView, a: SpansView, b: SpansView, q: Seq<SegView>)
    requires
        grows(old, a),
        grows(a, b),
        came_without(a, b, q),
    ensures
        found(old, b, q) == found(old, a, q),
{
    lemma_values_later(a.values, b.values, q, old.values.len() as int);
    lemma_values_without(b.values, q, a.values.len() as int);
    lemma_brackets_later(a.opens, b.opens, q, old.opens.len() as int);
    lemma_brackets_without(b.opens, q, a.opens.len() as int);
    lemma_brackets_later(a.closes, b.closes, q, old.closes.len() as int);
    lemma_brackets_without(b.closes, q, a.closes.len() as int);
}

/// Where nothing was found, only what came in later counts.
proof fn lemma_found_later(old: SpansView, a: SpansView, b: SpansView, q: Seq<SegView>)
    requires
        grows(old, a),
        grows(a, b),
        found(old, a, q) == (None::<(int, int)>, None::<int>, None::<int>),
    ensures
        found(old, b, q) == found(a, b, q),
{
    lemma_values_later(a.values, b.values, q, old.values.len() as int);
    lemma_brackets_later(a.opens, b.opens, q, old.opens.len() as int);
    lemma_brackets_later(a.closes, b.closes, q, old.closes.len() as int);
}

proof fn lemma_nothing_found(old: SpansView, b: SpansView, q: Seq<SegView>)
    requires
        came_without(old, b, q),
    ensures
        found(old, b, q) == (None::<(int, int)>, None::<int>, None::<int>),
{
    lemma_values_without(b.values, q, old.values.len() as int);
    lemma_brackets_without(b.opens, q, old.opens.len() as int);
    lemma_brackets_without(b.closes, q, old.closes.len() as int);
}

// ── Containers ───────────────────────────────────────────────────────
spec fn fits_inside(
    s: Seq<char>,
    old: SpansView,
    sp: SpansView,
    p: Seq<SegView>,
    es: Entries,
    r: Seq<SegView>,
) -> bool {
    shows(s, found(old, sp, p + r), placed(s, es, r))
}

/// Whether everything below a container is found where it stands.
spec fn inner(s: Seq<char>, old: SpansView, sp: SpansView, p: Seq<SegView>, es: Entries) -> bool {
    forall|r: Seq<SegView>| r.len() > 0 ==> #[trigger] fits_inside(s, old, sp, p, es, r)
}

spec fn fits(
    s: Seq<char>,
    old: SpansView,
    sp: SpansView,
    p: Seq<SegView>,
    i: int,
    r: Seq<SegView>,
) -> bool {
    shows(s, found(old, sp, p + r), place(s, i, r))
}

/// Whether the value at `i` and everything below it is found where it stands.
spec fn whole(s: Seq<char>, old: SpansView, sp: SpansView, p: Seq<SegView>, i: int) -> bool {
    forall|r: Seq<SegView>| #[trigger] fits(s, old, sp, p, i, r)
}

proof fn lemma_apart_paths(p: Seq<SegView>, a: SegView, r: Seq<SegView>, q: Seq<SegView>)
    requires
        r.len() > 0,
        r[0] != a,
        under(p.push(a), q),
    ensures
        q != p + r,
{
    let n = p.len() as int;
    assert(q.take(n + 1)[n] == a);
    assert((p + r)[n] == r[0]);
}

/// One more entry of a container, at segment `a`, behind those that were found.
proof fn lemma_entry(
    s: Seq<char>,
    old: SpansView,
    mid: SpansView,
    sp: SpansView,
    p: Seq<SegView>,
    a: SegView,
    es: Entries,
    x: int,
)
    requires
        grows(old, mid),
        grows(mid, sp),
        inner(s, old, mid, p, es),
        whole(s, mid, sp, p.push(a), x),
        came_under(mid, sp, p.push(a), 0),
        forall|l: int| 0 <= l < es.len() ==> (#[trigger] es[l]).0 != a,
    ensures
        inner(s, old, sp, p, es.push((a, x))),
{
    let after = es.push((a, x));
    assert forall|r: Seq<SegView>| r.len() > 0 implies #[trigger] fits_inside(
        s,
        old,
        sp,
        p,
        after,
        r,
    ) by {
        let q = p + r;
        assert(fits_inside(s, old, mid, p, es, r));
        lemma_entry_pushed(es, (a, x), r[0], 0);
        if r[0] == a {
            lemma_entry_unknown(es, a, 0);
            lemma_found_later(old, mid, sp, q);
            assert(q =~= p.push(a) + r.drop_first());
            assert(fits(s, mid, sp, p.push(a), x, r.drop_first()));
        } else {
            assert(came_without(mid, sp, q)) by {
                assert forall|k: int| mid.values.len() <= k < sp.values.len() implies (
                #[trigger] sp.values[k]).0 != q by {
                    lemma_apart_paths(p, a, r, sp.values[k].0);
                }
                assert forall|k: int| mid.opens.len() <= k < sp.opens.len() implies (
                #[trigger] sp.opens[k]).0 != q by {
                    lemma_apart_paths(p, a, r, sp.opens[k].0);
                }
                assert forall|k: int| mid.closes.len() <= k < sp.closes.len() implies (
                #[trigger] sp.closes[k]).0 != q by {
                    lemma_apart_paths(p, a, r, sp.closes[k].0);
                }
            }
            lemma_found_stays(old, mid, sp, q);
        }
    }
}

proof fn lemma_under_push(p: Seq<SegView>, a: SegView, q: Seq<SegView>)
    requires
        under(p.push(a), q),
    ensures
        under(p, q),
        q.len() >= p.len() + 1,
{
    let n = p.len() as int;
    assert(q.take(n) =~= q.take(n + 1).take(n));
    assert(p.push(a).take(n) =~= p);
}

proof fn lemma_came_on(
    old: SpansView,
    mid: SpansView,
    sp: SpansView,
    p: Seq<SegView>,
    a: SegView,
)
    requires
        grows(old, mid),
        grows(mid, sp),
        came_under(old, mid, p, 1),
        came_under(mid, sp, p.push(a), 0),
    ensures
        grows(old, sp),
        came_under(old, sp, p, 1),
{
    assert forall|k: int| old.values.len() <= k < sp.values.len() implies under(
        p,
        (#[trigger] sp.values[k]).0,
    ) && sp.values[k].0.len() >= p.len() + 1 by {
        if k < mid.values.len() {
            assert(sp.values[k] == mid.values[k]);
        } else {
            lemma_under_push(p, a, sp.values[k].0);
        }
    }
    assert forall|k: int| old.opens.len() <= k < sp.opens.len() implies under(
        p,
        (#[trigger] sp.opens[k]).0,
    ) && sp.opens[k].0.len() >= p.len() + 1 by {
        if k < mid.opens.len() {
            assert(sp.opens[k] == mid.opens[k]);
        } else {
            lemma_under_push(p, a, sp.opens[k].0);
        }
    }
    assert forall|k: int| old.closes.len() <= k < sp.closes.len() implies under(
        p,
        (#[trigger] sp.closes[k]).0,
    ) && sp.closes[k].0.len() >= p.len() + 1 by {
        if k < mid.closes.len() {
            assert(sp.closes[k] == mid.closes[k]);
        } else {
            lemma_under_push(p, a, sp.closes[k].0);
        }
    }
    assert forall|k: int| 0 <= k < old.values.len() implies #[trigger] sp.values[k]
        == old.values[k] by {
        assert(sp.values[k] == mid.values[k]);
    }
    assert forall|k: int| 0 <= k < old.opens.len() implies #[trigger] sp.opens[k] == old.opens[k] by {
        assert(sp.opens[k] == mid.opens[k]);
    }
    assert forall|k: int| 0 <= k < old.closes.len() implies #[trigger] sp.closes[k]
        == old.closes[k] by {
        assert(sp.closes[k] == mid.closes[k]);
    }
}

/// A container that was opened, filled and closed.
proof fn lemma_container(
    s: Seq<char>,
    old: SpansView,
    base: SpansView,
    filled: SpansView,
    sp: SpansView,
    p: Seq<SegView>,
    v: JsonView,
    i: int,
    e: int,
)
    requires
        base == (SpansView { opens: old.opens.push((p, i)), ..old }),
        grows(base, filled),
        came_under(base, filled, p, 1),
        inner(s, base, filled, p, entries_at(s, i)),
        sp.values == filled.values,
        sp.opens == filled.opens,
        sp.closes == filled.closes.push((p, e - 1)),
        value_at(s, i) == Some((v, e)),
        !is_scalar(v),
    ensures
        grows(old, sp),
        came_under(old, sp, p, 0),
        whole(s, old, sp, p, i),
{
    let no = old.opens.len() as int;
    let nc = filled.closes.len() as int;
    assert(base.opens[no] == (p, i));
    assert(filled.opens[no] == base.opens[no]);
    assert(p.take(p.len() as int) =~= p);
    assert(grows(old, sp)) by {
        assert forall|k: int| 0 <= k < old.opens.len() implies #[trigger] sp.opens[k]
            == old.opens[k] by {
            assert(filled.opens[k] == base.opens[k]);
        }
        assert forall|k: int| 0 <= k < old.closes.len() implies #[trigger] sp.closes[k]
            == old.closes[k] by {
            assert(filled.closes[k] == base.closes[k]);
        }
        assert forall|k: int| 0 <= k < old.values.len() implies #[trigger] sp.values[k]
            == old.values[k] by {
            assert(filled.values[k] == base.values[k]);
        }
    }
    assert(came_under(old, sp, p, 0)) by {
        assert forall|k: int| old.opens.len() <= k < sp.opens.len() implies under(
            p,
            (#[trigger] sp.opens[k]).0,
        ) && sp.opens[k].0.len() >= p.len() by {
            assert(sp.opens[k] == filled.opens[k]);
        }
        assert forall|k: int| old.closes.len() <= k < sp.closes.len() implies under(
            p,
            (#[trigger] sp.closes[k]).0,
        ) && sp.closes[k].0.len() >= p.len() by {
            if k < nc {
                assert(sp.closes[k] == filled.closes[k]);
            }
        }
    }
    assert forall|r: Seq<SegView>| #[trigger] fits(s, old, sp, p, i, r) by {
        let q = p + r;
        lemma_brackets_later(filled.closes, sp.closes, q, old.closes.len() as int);
        if r.len() == 0 {
            assert(q =~= p);
            lemma_values_without(sp.values, q, old.values.len() as int);
            assert(bracket_from(sp.opens, q, no) == Some(i));
            lemma_brackets_without(filled.closes, q, old.closes.len() as int);
            assert(bracket_from(sp.closes, q, nc) == Some(e - 1));
        } else {
            assert(fits_inside(s, base, filled, p, entries_at(s, i), r));
            assert(q.len() > p.len());
            assert(bracket_from(sp.opens, q, no) == bracket_from(sp.opens, q, no + 1));
            lemma_brackets_without(sp.closes, q, nc);
            assert(found(old, sp, q) == found(base, filled, q));
        }
    }
}

// ── Keys ─────────────────────────────────────────────────────────────
/// The keys of an object, and where they stand.
pub type Keys = Seq<(Seq<char>, int)>;

/// The keys of an object from the token at `i` on, behind those in `before`.
pub open spec fn member_keys(s: Seq<char>, i: int, before: Keys) -> Keys
    decreases s.len() - i,
{
    if i < 0 || i >= s.len() || s[i] != '"' {
        before
    } else {
        match member_at(s, i) {
            Some((name, _, m)) => if i < m < s.len() {
                let more = before.push((name, i));
                if s[m] == ',' {
                    match skip(s, m + 1) {
                        Some(n) => if i < n <= s.len() {
                            member_keys(s, n, more)
                        } else {
                            more
                        },
                        None => more,
                    }
                } else {
                    more
                }
            } else {
                before
            },
            None => before,
        }
    }
}

/// The keys of the value at `i`.
pub open spec fn keys_at(s: Seq<char>, i: int) -> Keys {
    match skip(s, i + 1) {
        Some(j) => if s[i] == '{' {
            member_keys(s, j, Seq::empty())
        } else {
            Seq::empty()
        },
        None => Seq::empty(),
    }
}

/// Where a key stands, from key `k` on.
pub open spec fn name_from(ks: Keys, name: Seq<char>, k: int) -> Option<int>
    decreases ks.len() - k,
{
    if k < 0 || k >= ks.len() {
        None
    } else if ks[k].0 == name {
        Some(ks[k].1)
    } else {
        name_from(ks, name, k + 1)
    }
}

/// Where the key of the member at a path stands below the value at `i`.
pub open spec fn key_place(s: Seq<char>, i: int, path: Seq<SegView>) -> Option<int>
    decreases path.len(),
{
    if path.len() == 0 {
        None
    } else if path.len() == 1 {
        match path[0] {
            SegView::Key(name) => name_from(keys_at(s, i), name, 0),
            _ => None,
        }
    } else {
        match entry_from(entries_at(s, i), path[0], 0) {
            Some(x) => key_place(s, x, path.drop_first()),
            None => None,
        }
    }
}

/// Where the key of the member at a path stands below a container with these
/// entries and keys.
spec fn key_placed(s: Seq<char>, es: Entries, ks: Keys, path: Seq<SegView>) -> Option<int> {
    if path.len() == 1 {
        match path[0] {
            SegView::Key(name) => name_from(ks, name, 0),
            _ => None,
        }
    } else {
        match entry_from(es, path[0], 0) {
            Some(x) => key_place(s, x, path.drop_first()),
            None => None,
        }
    }
}

/// The name at the end of a path.
pub open spec fn last_name(path: Seq<SegView>) -> Seq<char> {
    if path.len() == 0 {
        Seq::empty()
    } else {
        match path.last() {
            SegView::Key(name) => name,
            _ => Seq::empty(),
        }
    }
}

/// The keys that a pass recorded, by the paths of their members.
spec fn members_of(sp: SpansView) -> Seq<(Seq<SegView>, Seq<char>, int, int)> {
    Seq::new(
        sp.keys.len(),
        |k: int|
            (sp.keys[k].0.push(SegView::Key(sp.keys[k].1)), sp.keys[k].1, sp.keys[k].2, sp.keys[k].3),
    )
}

/// A key is found by its object where its member is found.
proof fn lemma_key_of_member(sp: SpansView, object: Seq<SegView>, name: Seq<char>, i: int)
    requires
        0 <= i,
    ensures
        key_from(sp.keys, object, name, i) == key_from(
            members_of(sp),
            object.push(SegView::Key(name)),
            name,
            i,
        ),
    decreases sp.keys.len() - i,
{
    if i < sp.keys.len() {
        lemma_key_of_member(sp, object, name, i + 1);
        let p = sp.keys[i].0;
        let q = p.push(SegView::Key(name));
        if q == object.push(SegView::Key(name)) {
            assert(q.drop_last() =~= p);
            assert(object.push(SegView::Key(name)).drop_last() =~= object);
        }
    }
}

/// The key that was recorded for a path since an earlier record.
spec fn key_found(old: SpansView, sp: SpansView, q: Seq<SegView>) -> Option<(int, int)> {
    key_from(members_of(sp), q, last_name(q), members_of(old).len() as int)
}

/// Whether what was recorded is the key that stands at `o`.
pub open spec fn shows_key(s: Seq<char>, f: Option<(int, int)>, o: Option<int>) -> bool {
    match o {
        Some(k) => string_from(s, k + 1, Seq::empty()) matches Some((_, e)) && f == Some((k, e)),
        None => f is None,
    }
}

/// Whether the keys that came in go on from the earlier ones, and lie below a
/// path.
spec fn keys_came(a: SpansView, b: SpansView, p: Seq<SegView>) -> bool {
    &&& members_of(a).len() <= members_of(b).len()
    &&& forall|k: int| 0 <= k < members_of(a).len() ==> #[trigger] members_of(b)[k] == members_of(a)[k]
    &&& forall|k: int|
        members_of(a).len() <= k < members_of(b).len() ==> under(p, (#[trigger] members_of(b)[k]).0)
            && members_of(b)[k].0.len() > p.len()
}

spec fn key_fits_inside(
    s: Seq<char>,
    old: SpansView,
    sp: SpansView,
    p: Seq<SegView>,
    es: Entries,
    ks: Keys,
    r: Seq<SegView>,
) -> bool {
    shows_key(s, key_found(old, sp, p + r), key_placed(s, es, ks, r))
}

spec fn keys_inner(
    s: Seq<char>,
    old: SpansView,
    sp: SpansView,
    p: Seq<SegView>,
    es: Entries,
    ks: Keys,
) -> bool {
    forall|r: Seq<SegView>| r.len() > 0 ==> #[trigger] key_fits_inside(s, old, sp, p, es, ks, r)
}

spec fn key_fits(
    s: Seq<char>,
    old: SpansView,
    sp: SpansView,
    p: Seq<SegView>,
    i: int,
    r: Seq<SegView>,
) -> bool {
    shows_key(s, key_found(old, sp, p + r), key_place(s, i, r))
}

spec fn keys_whole(s: Seq<char>, old: SpansView, sp: SpansView, p: Seq<SegView>, i: int) -> bool {
    forall|r: Seq<SegView>| #[trigger] key_fits(s, old, sp, p, i, r)
}

type KeyRows = Seq<(Seq<SegView>, Seq<char>, int, int)>;

proof fn lemma_keys_later(v: KeyRows, w: KeyRows, q: Seq<SegView>, name: Seq<char>, i: int)
    requires
        0 <= i <= v.len() <= w.len(),
        forall|k: int| 0 <= k < v.len() ==> #[trigger] w[k] == v[k],
    ensures
        key_from(v, q, name, i) is Some ==> key_from(w, q, name, i) == key_from(v, q, name, i),
        key_from(v, q, name, i) is None ==> key_from(w, q, name, i) == key_from(
            w,
            q,
            name,
            v.len() as int,
        ),
    decreases v.len() - i,
{
    if i < v.len() {
        assert(w[i] == v[i]);
        lemma_keys_later(v, w, q, name, i + 1);
    }
}

proof fn lemma_keys_without(w: KeyRows, q: Seq<SegView>, name: Seq<char>, i: int)
    requires
        0 <= i,
        forall|k: int| i <= k < w.len() ==> (#[trigger] w[k]).0 != q,
    ensures
        key_from(w, q, name, i) is None,
    decreases w.len() - i,
{
    if i < w.len() {
        assert(w[i].0 != q);
        lemma_keys_without(w, q, name, i + 1);
    }
}

pub proof fn lemma_name_pushed(ks: Keys, x: (Seq<char>, int), name: Seq<char>, k: int)
    requires
        0 <= k <= ks.len(),
    ensures
        name_from(ks.push(x), name, k) == (match name_from(ks, name, k) {
            Some(i) => Some(i),
            None => if x.0 == name {
                Some(x.1)
            } else {
                None
            },
        }),
    decreases ks.len() - k,
{
    let n = ks.push(x);
    if k < ks.len() {
        assert(n[k] == ks[k]);
        lemma_name_pushed(ks, x, name, k + 1);
    } else {
        assert(n[k] == x);
        assert(name_from(n, name, k + 1) is None);
    }
}

proof fn lemma_last_name(p: Seq<SegView>, r: Seq<SegView>)
    requires
        r.len() > 0,
    ensures
        last_name(p + r) == last_name(r),
{
    assert((p + r).last() == r.last());
}

/// One more member: its key at `i`, and what is below its value at `x`.
proof fn lemma_key_entry(
    s: Seq<char>,
    old: SpansView,
    mid: SpansView,
    keyed: SpansView,
    sp: SpansView,
    p: Seq<SegView>,
    name: Seq<char>,
    es: Entries,
    ks: Keys,
    i: int,
    e: int,
    x: int,
)
    requires
        keys_came(old, mid, p),
        keys_inner(s, old, mid, p, es, ks),
        members_of(keyed) == members_of(mid).push((p.push(SegView::Key(name)), name, i, e)),
        string_from(s, i + 1, Seq::empty()) matches Some((_, f)) && f == e,
        keys_came(keyed, sp, p.push(SegView::Key(name))),
        keys_whole(s, keyed, sp, p.push(SegView::Key(name)), x),
        forall|l: int| 0 <= l < es.len() ==> (#[trigger] es[l]).0 != SegView::Key(name),
        forall|l: int| 0 <= l < ks.len() ==> (#[trigger] ks[l]).0 != name,
    ensures
        keys_came(old, sp, p),
        keys_inner(s, old, sp, p, es.push((SegView::Key(name), x)), ks.push((name, i))),
{
    let a = SegView::Key(name);
    let p1 = p.push(a);
    let n = members_of(mid).len() as int;
    assert(members_of(keyed)[n] == (p1, name, i, e));
    assert(members_of(sp)[n] == members_of(keyed)[n]);
    assert(p1.take(p.len() as int) =~= p);
    assert forall|k: int| 0 <= k < members_of(mid).len() implies #[trigger] members_of(sp)[k] == members_of(mid)[k] by {
        assert(members_of(sp)[k] == members_of(keyed)[k]);
    }
    assert(keys_came(old, sp, p)) by {
        assert forall|k: int| members_of(old).len() <= k < members_of(sp).len() implies under(
            p,
            (#[trigger] members_of(sp)[k]).0,
        ) && members_of(sp)[k].0.len() > p.len() by {
            if k < n {
                assert(members_of(sp)[k] == members_of(mid)[k]);
            } else if k > n {
                lemma_under_push(p, a, members_of(sp)[k].0);
            }
        }
        assert forall|k: int| 0 <= k < members_of(old).len() implies #[trigger] members_of(sp)[k]
            == members_of(old)[k] by {
            assert(members_of(sp)[k] == members_of(mid)[k]);
        }
    }
    let es1 = es.push((a, x));
    let ks1 = ks.push((name, i));
    assert forall|r: Seq<SegView>| r.len() > 0 implies #[trigger] key_fits_inside(
        s,
        old,
        sp,
        p,
        es1,
        ks1,
        r,
    ) by {
        let q = p + r;
        let last = last_name(q);
        lemma_last_name(p, r);
        assert(key_fits_inside(s, old, mid, p, es, ks, r));
        lemma_keys_later(members_of(mid), members_of(sp), q, last, members_of(old).len() as int);
        lemma_entry_pushed(es, (a, x), r[0], 0);
        if r.len() == 1 {
            if r[0] == a {
                lemma_name_unknown(ks, name, 0);
                lemma_name_pushed(ks, (name, i), name, 0);
                assert(q =~= p1);
                assert(key_from(members_of(sp), q, last, n) == Some((i, e)));
            } else {
                if let SegView::Key(other) = r[0] {
                    lemma_name_pushed(ks, (name, i), other, 0);
                }
                assert forall|k: int| n <= k < members_of(sp).len() implies (#[trigger] members_of(sp)[k]).0
                    != q by {
                    if k == n {
                        assert(q[p.len() as int] == r[0]);
                        assert(p1[p.len() as int] == a);
                    } else {
                        lemma_apart_paths(p, a, r, members_of(sp)[k].0);
                    }
                }
                lemma_keys_without(members_of(sp), q, last, n);
            }
        } else {
            assert(q != p1) by {
                assert(q.len() > p1.len());
            }
            if r[0] == a {
                lemma_entry_unknown(es, a, 0);
                assert(key_from(members_of(sp), q, last, n) == key_from(members_of(sp), q, last, n + 1));
                let rest = r.drop_first();
                assert(q =~= p1 + rest);
                assert(key_fits(s, keyed, sp, p1, x, rest));
            } else {
                assert forall|k: int| n <= k < members_of(sp).len() implies (#[trigger] members_of(sp)[k]).0
                    != q by {
                    if k > n {
                        lemma_apart_paths(p, a, r, members_of(sp)[k].0);
                    }
                }
                lemma_keys_without(members_of(sp), q, last, n);
            }
        }
    }
}

proof fn lemma_name_unknown(ks: Keys, name: Seq<char>, k: int)
    requires
        0 <= k,
        forall|l: int| 0 <= l < ks.len() ==> (#[trigger] ks[l]).0 != name,
    ensures
        name_from(ks, name, k) is None,
    decreases ks.len() - k,
{
    if k < ks.len() {
        assert(ks[k].0 != name);
        lemma_name_unknown(ks, name, k + 1);
    }
}

/// One more element, with what is below its value at `x`.
proof fn lemma_item_keys(
    s: Seq<char>,
    old: SpansView,
    mid: SpansView,
    sp: SpansView,
    p: Seq<SegView>,
    a: SegView,
    es: Entries,
    x: int,
)
    requires
        keys_came(old, mid, p),
        keys_inner(s, old, mid, p, es, Seq::empty()),
        keys_came(mid, sp, p.push(a)),
        keys_whole(s, mid, sp, p.push(a), x),
        forall|l: int| 0 <= l < es.len() ==> (#[trigger] es[l]).0 != a,
    ensures
        keys_came(old, sp, p),
        keys_inner(s, old, sp, p, es.push((a, x)), Seq::empty()),
{
    let p1 = p.push(a);
    let n = members_of(mid).len() as int;
    assert(keys_came(old, sp, p)) by {
        assert forall|k: int| members_of(old).len() <= k < members_of(sp).len() implies under(
            p,
            (#[trigger] members_of(sp)[k]).0,
        ) && members_of(sp)[k].0.len() > p.len() by {
            if k < n {
                assert(members_of(sp)[k] == members_of(mid)[k]);
            } else {
                lemma_under_push(p, a, members_of(sp)[k].0);
            }
        }
        assert forall|k: int| 0 <= k < members_of(old).len() implies #[trigger] members_of(sp)[k]
            == members_of(old)[k] by {
            assert(members_of(sp)[k] == members_of(mid)[k]);
        }
    }
    let es1 = es.push((a, x));
    assert forall|r: Seq<SegView>| r.len() > 0 implies #[trigger] key_fits_inside(
        s,
        old,
        sp,
        p,
        es1,
        Seq::empty(),
        r,
    ) by {
        let q = p + r;
        let last = last_name(q);
        assert(key_fits_inside(s, old, mid, p, es, Seq::empty(), r));
        lemma_keys_later(members_of(mid), members_of(sp), q, last, members_of(old).len() as int);
        lemma_entry_pushed(es, (a, x), r[0], 0);
        if r.len() > 1 && r[0] == a {
            lemma_entry_unknown(es, a, 0);
            assert(q =~= p1 + r.drop_first());
            assert(key_fits(s, mid, sp, p1, x, r.drop_first()));
        } else {
            assert forall|k: int| n <= k < members_of(sp).len() implies (#[trigger] members_of(sp)[k]).0 != q by {
                if r[0] == a {
                    assert(q.len() == p1.len());
                } else {
                    lemma_apart_paths(p, a, r, members_of(sp)[k].0);
                }
            }
            lemma_keys_without(members_of(sp), q, last, n);
        }
    }
}

/// What is below a container is what is inside it.
proof fn lemma_keys_closed(
    s: Seq<char>,
    old: SpansView,
    base: SpansView,
    filled: SpansView,
    sp: SpansView,
    p: Seq<SegView>,
    i: int,
)
    requires
        members_of(base) == members_of(old),
        members_of(sp) == members_of(filled),
        keys_came(base, filled, p),
        keys_inner(s, base, filled, p, entries_at(s, i), keys_at(s, i)),
    ensures
        keys_came(old, sp, p),
        keys_whole(s, old, sp, p, i),
{
    assert forall|r: Seq<SegView>| #[trigger] key_fits(s, old, sp, p, i, r) by {
        let q = p + r;
        if r.len() == 0 {
            assert(q =~= p);
            lemma_keys_without(members_of(sp), q, last_name(q), members_of(old).len() as int);
        } else {
            assert(key_fits_inside(s, base, filled, p, entries_at(s, i), keys_at(s, i), r));
        }
    }
}

proof fn lemma_no_keys(s: Seq<char>, sp: SpansView, p: Seq<SegView>)
    ensures
        keys_came(sp, sp, p),
        keys_inner(s, sp, sp, p, Seq::empty(), Seq::empty()),
{
    assert forall|r: Seq<SegView>| r.len() > 0 implies #[trigger] key_fits_inside(
        s,
        sp,
        sp,
        p,
        Seq::empty(),
        Seq::empty(),
        r,
    ) by {
        lemma_keys_without(members_of(sp), p + r, last_name(p + r), members_of(sp).len() as int);
    }
}

// ── The pass and the grammar ─────────────────────────────────────────
/// Whether the pass waits for a value.
spec fn ready(stack: Seq<FrameView>) -> bool {
    stack.len() == 0 || (stack.last().array == (stack.last().pending is None))
}

/// The path of the value that the pass waits for.
spec fn here(stack: Seq<FrameView>) -> Seq<SegView> {
    if stack.len() == 0 {
        Seq::empty()
    } else {
        child_path(stack.last())
    }
}

/// The open containers behind a value.
spec fn stepped(stack: Seq<FrameView>) -> Seq<FrameView> {
    if stack.len() == 0 {
        stack
    } else {
        stack.drop_last().push(FrameView { pending: None, ..counted(stack.last()) })
    }
}

proof fn lemma_scalar(s: Seq<char>, st: ScanView, i: int, e: int, v: JsonView)
    requires
        st.stack.len() > 0,
        ready(st.stack),
        value_at(s, i) == Some((v, e)),
        is_scalar(v),
    ensures
        ({
            let a = after_scalar(st, i, e);
            let p = here(st.stack);
            &&& a.stack == stepped(st.stack)
            &&& grows(st.spans, a.spans)
            &&& came_under(st.spans, a.spans, p, 0)
            &&& whole(s, st.spans, a.spans, p, i)
            &&& keys_came(st.spans, a.spans, p)
            &&& keys_whole(s, st.spans, a.spans, p, i)
        }),
{
    let a = after_scalar(st, i, e);
    assert forall|r: Seq<SegView>| #[trigger] key_fits(
        s,
        st.spans,
        a.spans,
        here(st.stack),
        i,
        r,
    ) by {
        let q = here(st.stack) + r;
        lemma_keys_without(members_of(a.spans), q, last_name(q), members_of(st.spans).len() as int);
        assert(entries_at(s, i) =~= Seq::empty());
        assert(keys_at(s, i) =~= Seq::empty());
    }
    let p = here(st.stack);
    let n = st.spans.values.len() as int;
    assert(a.spans.values[n] == (p, i, e));
    assert(p.take(p.len() as int) =~= p);
    assert forall|r: Seq<SegView>| #[trigger] fits(s, st.spans, a.spans, p, i, r) by {
        let q = p + r;
        lemma_brackets_without(a.spans.opens, q, st.spans.opens.len() as int);
        lemma_brackets_without(a.spans.closes, q, st.spans.closes.len() as int);
        if r.len() == 0 {
            assert(q =~= p);
        } else {
            assert(q.len() > p.len());
            lemma_values_without(a.spans.values, q, n);
            assert(entries_at(s, i) =~= Seq::empty());
        }
    }
}

pub proof fn lemma_members_prefix(s: Seq<char>, i: int, before: Members)
    requires
        members_at(s, i, before) is Some,
    ensures
        ({
            let (m, e) = members_at(s, i, before)->0;
            &&& before.len() <= m.len()
            &&& m.take(before.len() as int) == before
            &&& i < e <= s.len()
            &&& 0 <= i
            &&& s[e - 1] == '}'
        }),
    decreases s.len() - i,
{
    let (m, e) = members_at(s, i, before)->0;
    let n = before.len() as int;
    if s[i] == '}' {
        assert(m.take(n) =~= before);
    } else {
        let (name, value, k) = member_at(s, i)->0;
        let more = before.push((name, value));
        assert(more.take(n) =~= before);
        if s[k] == ',' {
            let next = skip(s, k + 1)->0;
            lemma_members_prefix(s, next, more);
            assert(m.take(n) =~= m.take(n + 1).take(n));
        }
    }
}

pub proof fn lemma_items_prefix(s: Seq<char>, i: int, before: Seq<JsonView>)
    requires
        items_at(s, i, before) is Some,
    ensures
        ({
            let (v, e) = items_at(s, i, before)->0;
            &&& before.len() <= v.len()
            &&& v.take(before.len() as int) == before
            &&& i < e <= s.len()
            &&& 0 <= i
            &&& s[e - 1] == ']'
        }),
    decreases s.len() - i,
{
    let (v, e) = items_at(s, i, before)->0;
    let n = before.len() as int;
    if s[i] == ']' {
        assert(v.take(n) =~= before);
    } else {
        let (value, k) = value_at(s, i)->0;
        let more = before.push(value);
        assert(more.take(n) =~= before);
        let m = skip(s, k)->0;
        if s[m] == ',' {
            let next = skip(s, m + 1)->0;
            lemma_items_prefix(s, next, more);
            assert(v.take(n) =~= v.take(n + 1).take(n));
        }
    }
}

/// Nothing runs into a value behind which a list goes on or ends.
pub proof fn lemma_stops(s: Seq<char>, e: int)
    requires
        0 <= e,
        skip(s, e) matches Some(m) && 0 <= m <= s.len() && (m < s.len() ==> !is_number_char(s[m])),
    ensures
        e < s.len() ==> !is_number_char(s[e]),
{
}

pub proof fn lemma_member_back(m: Members, k: int, i: int)
    requires
        named(m),
        0 <= i <= k < m.len(),
    ensures
        member_from(m, m[k].0, i) == Some(m[k].1),
    decreases k - i,
{
    if i < k {
        assert(m[i].0 != m[k].0);
        lemma_member_back(m, k, i + 1);
    }
}

pub proof fn lemma_member_unknown(m: Members, name: Seq<char>, i: int)
    requires
        0 <= i,
        forall|k: int| 0 <= k < m.len() ==> (#[trigger] m[k]).0 != name,
    ensures
        member_from(m, name, i) is None,
    decreases m.len() - i,
{
    if i < m.len() {
        assert(m[i].0 != name);
        lemma_member_unknown(m, name, i + 1);
    }
}

pub proof fn lemma_member_pushed(m: Members, x: (Seq<char>, JsonView), name: Seq<char>, i: int)
    requires
        0 <= i <= m.len(),
    ensures
        member_from(m.push(x), name, i) == (match member_from(m, name, i) {
            Some(j) => Some(j),
            None => if x.0 == name {
                Some(x.1)
            } else {
                None
            },
        }),
    decreases m.len() - i,
{
    let n = m.push(x);
    if i < m.len() {
        assert(n[i] == m[i]);
        lemma_member_pushed(m, x, name, i + 1);
    } else {
        assert(n[i] == x);
        assert(member_from(n, name, i + 1) is None);
    }
}

/// The value of a member of a tidy object is tidy.
pub proof fn lemma_tidy_member(m: Members, k: int)
    requires
        tidy(JsonView::Object(m)),
        0 <= k < m.len(),
    ensures
        named(m),
        tidy(m[k].1),
{
    let j = JsonView::Object(m);
    assert(json_at(j, Seq::empty()) == Some(j));
    lemma_member_back(m, k, 0);
    assert forall|r: Seq<SegView>| well_named(#[trigger] json_at(m[k].1, r)) by {
        let q = seq![SegView::Key(m[k].0)] + r;
        assert(q.drop_first() =~= r);
        assert(json_at(j, q) == json_at(m[k].1, r));
    }
}

pub proof fn lemma_tidy_item(v: Seq<JsonView>, k: int)
    requires
        tidy(JsonView::Array(v)),
        0 <= k < v.len(),
    ensures
        tidy(v[k]),
{
    let j = JsonView::Array(v);
    assert forall|r: Seq<SegView>| well_named(#[trigger] json_at(v[k], r)) by {
        let q = seq![SegView::Index(k as nat)] + r;
        assert(q.drop_first() =~= r);
        assert(json_at(j, q) == json_at(v[k], r));
    }
}

/// Behind the closing bracket of a container.
proof fn lemma_closed(
    s: Seq<char>,
    st: ScanView,
    i: int,
    array: bool,
    b: ScanView,
    e: int,
    v: JsonView,
) -> (a: ScanView)
    requires
        0 <= i < e <= s.len(),
        ready(st.stack),
        b.stack.len() > 0,
        b.stack.drop_last() == after_open(st, i, array).stack.drop_last(),
        b.stack.last().path == here(st.stack),
        s[e - 1] == '}' || s[e - 1] == ']',
        ({
            let base = after_open(st, i, array).spans;
            let p = here(st.stack);
            &&& grows(base, b.spans)
            &&& came_under(base, b.spans, p, 1)
            &&& inner(s, base, b.spans, p, entries_at(s, i))
            &&& keys_came(base, b.spans, p)
            &&& keys_inner(s, base, b.spans, p, entries_at(s, i), keys_at(s, i))
        }),
        value_at(s, i) == Some((v, e)),
        !is_scalar(v),
    ensures
        scan_from(s, e - 1, b) == scan_from(s, e, a),
        a.stack == stepped(st.stack),
        grows(st.spans, a.spans),
        came_under(st.spans, a.spans, here(st.stack), 0),
        whole(s, st.spans, a.spans, here(st.stack), i),
        keys_came(st.spans, a.spans, here(st.stack)),
        keys_whole(s, st.spans, a.spans, here(st.stack), i),
{
    let a = after_close(b, e - 1);
    let p = here(st.stack);
    let base = after_open(st, i, array).spans;
    lemma_container(s, st.spans, base, b.spans, a.spans, p, v, i, e);
    lemma_keys_closed(s, st.spans, base, b.spans, a.spans, p, i);
    let below = b.stack.drop_last();
    let opened = after_open(st, i, array).stack;
    if st.stack.len() > 0 {
        let top = st.stack.last();
        if top.array {
            assert(below =~= st.stack);
        } else {
            assert(below =~= st.stack.drop_last().push(FrameView { pending: None, ..top }));
        }
        assert(below.drop_last() =~= st.stack.drop_last());
        assert(counted(below.last()) =~= FrameView { pending: None, ..counted(top) });
    } else {
        assert(below =~= st.stack);
    }
    assert(a.stack =~= stepped(st.stack));
    a
}

proof fn lemma_nothing_inside(s: Seq<char>, sp: SpansView, p: Seq<SegView>)
    ensures
        inner(s, sp, sp, p, Seq::empty()),
{
    assert forall|r: Seq<SegView>| r.len() > 0 implies #[trigger] fits_inside(
        s,
        sp,
        sp,
        p,
        Seq::empty(),
        r,
    ) by {
        lemma_nothing_found(sp, sp, p + r);
    }
}

/// The pass over a value records it and everything below it where it stands.
#[verifier::rlimit(30)]
proof fn lemma_value(s: Seq<char>, i: int, st: ScanView) -> (a: ScanView)
    requires
        value_at(s, i) is Some,
        ({
            let (v, e) = value_at(s, i)->0;
            &&& e < s.len() ==> !is_number_char(s[e])
            &&& st.stack.len() == 0 ==> !is_scalar(v)
            &&& tidy(v)
        }),
        ready(st.stack),
    ensures
        ({
            let (v, e) = value_at(s, i)->0;
            &&& 0 <= i < e <= s.len()
            &&& scan_from(s, i, st) == scan_from(s, e, a)
            &&& a.stack == stepped(st.stack)
            &&& grows(st.spans, a.spans)
            &&& came_under(st.spans, a.spans, here(st.stack), 0)
            &&& whole(s, st.spans, a.spans, here(st.stack), i)
            &&& keys_came(st.spans, a.spans, here(st.stack))
            &&& keys_whole(s, st.spans, a.spans, here(st.stack), i)
        }),
    decreases s.len() - i, 0int,
{
    let (v, e) = value_at(s, i)->0;
    let p = here(st.stack);
    if s[i] == '{' {
        let j = skip(s, i + 1)->0;
        let opened = after_open(st, i, false);
        lemma_skip_finds_nothing(s, i + 1, opened);
        assert(scan_from(s, i, st) == scan_from(s, i + 1, opened));
        lemma_members_prefix(s, j, Seq::empty());
        lemma_nothing_inside(s, opened.spans, p);
        lemma_no_keys(s, opened.spans, p);
        let none = Seq::empty();
        let b = lemma_members(s, j, Seq::empty(), none, Seq::empty(), opened, opened.spans);
        lemma_closed(s, st, i, false, b, e, v)
    } else if s[i] == '[' {
        let j = skip(s, i + 1)->0;
        let opened = after_open(st, i, true);
        lemma_skip_finds_nothing(s, i + 1, opened);
        assert(scan_from(s, i, st) == scan_from(s, i + 1, opened));
        lemma_items_prefix(s, j, Seq::empty());
        lemma_nothing_inside(s, opened.spans, p);
        lemma_no_keys(s, opened.spans, p);
        let b = lemma_items(s, j, Seq::empty(), Seq::empty(), opened, opened.spans);
        lemma_closed(s, st, i, true, b, e, v)
    } else {
        lemma_scalar(s, st, i, e, v);
        if s[i] == '"' {
            lemma_string_token(s, i + 1, Seq::empty());
        } else if s[i] == '-' || '0' <= s[i] <= '9' {
            lemma_number_token(s, i);
        } else {
            assert(word_end(s, i) == Some(e));
        }
        after_scalar(st, i, e)
    }
}

/// Whether the entries have the names of the members.
pub open spec fn same_names(es: Entries, m: Members) -> bool {
    &&& es.len() == m.len()
    &&& forall|k: int| 0 <= k < m.len() ==> (#[trigger] es[k]).0 == SegView::Key(m[k].0)
}

/// Whether the keys have the names of the members.
pub open spec fn same_keys(ks: Keys, m: Members) -> bool {
    &&& ks.len() == m.len()
    &&& forall|k: int| 0 <= k < m.len() ==> (#[trigger] ks[k]).0 == m[k].0
}

/// The pass over the members of an object, up to its closing brace.
#[verifier::rlimit(30)]
proof fn lemma_members(
    s: Seq<char>,
    i: int,
    before: Members,
    es: Entries,
    ks: Keys,
    st: ScanView,
    base: SpansView,
) -> (b: ScanView)
    requires
        members_at(s, i, before) is Some,
        ({
            let (m, e) = members_at(s, i, before)->0;
            tidy(JsonView::Object(m))
        }),
        same_names(es, before),
        same_keys(ks, before),
        st.stack.len() > 0,
        !st.stack.last().array,
        st.stack.last().pending is None,
        grows(base, st.spans),
        came_under(base, st.spans, st.stack.last().path, 1),
        inner(s, base, st.spans, st.stack.last().path, es),
        keys_came(base, st.spans, st.stack.last().path),
        keys_inner(s, base, st.spans, st.stack.last().path, es, ks),
    ensures
        ({
            let (m, e) = members_at(s, i, before)->0;
            let p = st.stack.last().path;
            &&& scan_from(s, i, st) == scan_from(s, e - 1, b)
            &&& b.stack == st.stack
            &&& grows(base, b.spans)
            &&& came_under(base, b.spans, p, 1)
            &&& inner(s, base, b.spans, p, member_entries(s, i, es))
            &&& keys_came(base, b.spans, p)
            &&& keys_inner(
                s,
                base,
                b.spans,
                p,
                member_entries(s, i, es),
                member_keys(s, i, ks),
            )
        }),
    decreases s.len() - i, 1int,
{
    let (m, e) = members_at(s, i, before)->0;
    let p = st.stack.last().path;
    lemma_members_prefix(s, i, before);
    if s[i] == '}' {
        st
    } else {
        let (name, value, k) = member_at(s, i)->0;
        let n = before.len() as int;
        let more = before.push((name, value));
        // The member is the next one of the object.
        if s[k] == ',' {
            lemma_members_prefix(s, skip(s, k + 1)->0, more);
            assert(m.take(n + 1)[n] == more[n]);
        }
        assert(m[n] == (name, value));
        lemma_tidy_member(m, n);
        // The key.
        let (t, q) = string_from(s, i + 1, Seq::empty())->0;
        lemma_string_token(s, i + 1, Seq::empty());
        assert(is_name(m[n].0));
        lemma_name_token(s, i + 1, i + 1, Seq::empty());
        assert(t.skip(0) =~= t);
        let keyed = after_string(st, i, q, t);
        assert(scan_from(s, i, st) == scan_from(s, q, keyed));
        // The colon, and what stands between.
        let c = skip(s, q)->0;
        lemma_skip_finds_nothing(s, q, keyed);
        lemma_pass_over(s, c, keyed);
        let v = skip(s, c + 1)->0;
        assert(v == member_spot(s, i));
        lemma_skip_finds_nothing(s, c + 1, keyed);
        // The value.
        let (x, f) = value_at(s, v)->0;
        lemma_stops(s, f);
        let a = lemma_value(s, v, keyed);
        assert(here(keyed.stack) == p.push(SegView::Key(name)));
        assert(a.stack =~= st.stack) by {
            assert(stepped(keyed.stack).last() =~= st.stack.last());
        }
        lemma_skip_finds_nothing(s, f, a);
        lemma_keys_aside(s, base, st.spans, keyed.spans, p, es);
        lemma_after_member(s, base, keyed.spans, a.spans, p, before, es, name, value, v, m);
        lemma_names_new(before, es, ks, name, value, m);
        assert(members_of(keyed.spans) =~= members_of(st.spans).push(
            (p.push(SegView::Key(name)), name, i, q),
        ));
        lemma_key_entry(s, base, st.spans, keyed.spans, a.spans, p, name, es, ks, i, q, v);
        let entries = es.push((SegView::Key(name), v));
        let keys = ks.push((name, i));
        if s[k] == '}' {
            a
        } else {
            lemma_pass_over(s, k, a);
            let next = skip(s, k + 1)->0;
            lemma_skip_finds_nothing(s, k + 1, a);
            lemma_members(s, next, more, entries, keys, a, base)
        }
    }
}

/// The name of a member is none of the names before it.
proof fn lemma_names_new(
    before: Members,
    es: Entries,
    ks: Keys,
    name: Seq<char>,
    value: JsonView,
    m: Members,
)
    requires
        same_names(es, before),
        same_keys(ks, before),
        named(m),
        before.len() < m.len(),
        m.take(before.len() as int) == before,
        m[before.len() as int] == (name, value),
    ensures
        forall|l: int| 0 <= l < es.len() ==> (#[trigger] es[l]).0 != SegView::Key(name),
        forall|l: int| 0 <= l < ks.len() ==> (#[trigger] ks[l]).0 != name,
        forall|i: int| same_keys(#[trigger] ks.push((name, i)), before.push((name, value))),
{
    let n = before.len() as int;
    assert forall|l: int| 0 <= l < es.len() implies (#[trigger] es[l]).0 != SegView::Key(name) by {
        assert(m.take(n)[l] == m[l]);
        assert(m[l].0 != m[n].0);
    }
    assert forall|l: int| 0 <= l < ks.len() implies (#[trigger] ks[l]).0 != name by {
        assert(m.take(n)[l] == m[l]);
        assert(m[l].0 != m[n].0);
    }
}

/// Recording a key changes nothing of what is found.
proof fn lemma_keys_aside(
    s: Seq<char>,
    base: SpansView,
    a: SpansView,
    b: SpansView,
    p: Seq<SegView>,
    es: Entries,
)
    requires
        a.values == b.values,
        a.opens == b.opens,
        a.closes == b.closes,
        grows(base, a),
        came_under(base, a, p, 1),
        inner(s, base, a, p, es),
    ensures
        grows(base, b),
        came_under(base, b, p, 1),
        inner(s, base, b, p, es),
{
    assert forall|r: Seq<SegView>| r.len() > 0 implies #[trigger] fits_inside(
        s,
        base,
        b,
        p,
        es,
        r,
    ) by {
        assert(fits_inside(s, base, a, p, es, r));
    }
}

proof fn lemma_after_member(
    s: Seq<char>,
    base: SpansView,
    mid: SpansView,
    sp: SpansView,
    p: Seq<SegView>,
    before: Members,
    es: Entries,
    name: Seq<char>,
    value: JsonView,
    x: int,
    m: Members,
)
    requires
        grows(base, mid),
        came_under(base, mid, p, 1),
        inner(s, base, mid, p, es),
        grows(mid, sp),
        came_under(mid, sp, p.push(SegView::Key(name)), 0),
        whole(s, mid, sp, p.push(SegView::Key(name)), x),
        same_names(es, before),
        named(m),
        before.len() < m.len(),
        m.take(before.len() as int) == before,
        m[before.len() as int] == (name, value),
    ensures
        grows(base, sp),
        came_under(base, sp, p, 1),
        inner(s, base, sp, p, es.push((SegView::Key(name), x))),
        same_names(es.push((SegView::Key(name), x)), before.push((name, value))),
{
    let n = before.len() as int;
    let a = SegView::Key(name);
    lemma_came_on(base, mid, sp, p, a);
    assert forall|l: int| 0 <= l < es.len() implies (#[trigger] es[l]).0 != a by {
        assert(m.take(n)[l] == m[l]);
        assert(m[l].0 != m[n].0);
    }
    lemma_entry(s, base, mid, sp, p, a, es, x);
}

/// Whether the entries are those of an array.
pub open spec fn in_order(es: Entries) -> bool {
    forall|k: int| 0 <= k < es.len() ==> (#[trigger] es[k]).0 == SegView::Index(k as nat)
}

/// The pass over the elements of an array, up to its closing bracket.
#[verifier::rlimit(30)]
proof fn lemma_items(
    s: Seq<char>,
    i: int,
    before: Seq<JsonView>,
    es: Entries,
    st: ScanView,
    base: SpansView,
) -> (b: ScanView)
    requires
        items_at(s, i, before) is Some,
        ({
            let (v, e) = items_at(s, i, before)->0;
            tidy(JsonView::Array(v))
        }),
        in_order(es),
        es.len() == before.len(),
        st.stack.len() > 0,
        st.stack.last().array,
        st.stack.last().pending is None,
        st.stack.last().count == before.len(),
        grows(base, st.spans),
        came_under(base, st.spans, st.stack.last().path, 1),
        inner(s, base, st.spans, st.stack.last().path, es),
        keys_came(base, st.spans, st.stack.last().path),
        keys_inner(s, base, st.spans, st.stack.last().path, es, Seq::empty()),
    ensures
        ({
            let (v, e) = items_at(s, i, before)->0;
            let p = st.stack.last().path;
            &&& scan_from(s, i, st) == scan_from(s, e - 1, b)
            &&& b.stack.len() == st.stack.len()
            &&& b.stack.drop_last() == st.stack.drop_last()
            &&& b.stack.last().path == p
            &&& grows(base, b.spans)
            &&& came_under(base, b.spans, p, 1)
            &&& inner(s, base, b.spans, p, item_entries(s, i, es))
            &&& keys_came(base, b.spans, p)
            &&& keys_inner(s, base, b.spans, p, item_entries(s, i, es), Seq::empty())
        }),
    decreases s.len() - i, 1int,
{
    let (v, e) = items_at(s, i, before)->0;
    let p = st.stack.last().path;
    lemma_items_prefix(s, i, before);
    if s[i] == ']' {
        st
    } else {
        let (x, f) = value_at(s, i)->0;
        let n = before.len() as int;
        let more = before.push(x);
        let k = skip(s, f)->0;
        if s[k] == ',' {
            lemma_items_prefix(s, skip(s, k + 1)->0, more);
            assert(v.take(n + 1)[n] == more[n]);
        }
        assert(v[n] == x);
        lemma_tidy_item(v, n);
        lemma_stops(s, f);
        let a = lemma_value(s, i, st);
        let seg = SegView::Index(before.len());
        assert(here(st.stack) == p.push(seg));
        assert(a.stack.drop_last() =~= st.stack.drop_last());
        lemma_skip_finds_nothing(s, f, a);
        lemma_came_on(base, st.spans, a.spans, p, seg);
        lemma_entry(s, base, st.spans, a.spans, p, seg, es, i);
        lemma_item_keys(s, base, st.spans, a.spans, p, seg, es, i);
        let entries = es.push((seg, i));
        if s[k] == ']' {
            a
        } else {
            lemma_pass_over(s, k, a);
            let next = skip(s, k + 1)->0;
            lemma_skip_finds_nothing(s, k + 1, a);
            lemma_items(s, next, more, entries, a, base)
        }
    }
}

// ── Places and values ────────────────────────────────────────────────
/// Where the pass of a document begins to find something.
pub open spec fn root(s: Seq<char>) -> int {
    match skip(s, 0) {
        Some(i) => i,
        None => 0,
    }
}

/// In a document whose objects are well named, the pass finds every value
/// where the grammar has it: a scalar by its span, a container by its
/// brackets, and nothing at a path where there is no value.
pub proof fn lemma_values_are_found(s: Seq<char>, path: Seq<SegView>)
    requires
        document(s) matches Some(j) && !is_scalar(j) && tidy(j),
    ensures
        shows(
            s,
            (value_span(s, path), open_at(s, path), close_at(s, path)),
            place(s, root(s), path),
        ),
{
    let i = root(s);
    let start = scan_start();
    lemma_skip_finds_nothing(s, 0, start);
    let (v, e) = value_at(s, i)->0;
    lemma_stops(s, e);
    let a = lemma_value(s, i, start);
    lemma_skip_finds_nothing(s, e, a);
    assert(scan(s) == a.spans);
    assert(fits(s, start.spans, a.spans, Seq::empty(), i, path));
    assert(Seq::<SegView>::empty() + path =~= path);
}

/// In a document whose objects are well named, the pass finds every key where
/// the grammar has it.
pub proof fn lemma_keys_are_found(s: Seq<char>, object: Seq<SegView>, name: Seq<char>)
    requires
        document(s) matches Some(j) && !is_scalar(j) && tidy(j),
    ensures
        shows_key(
            s,
            key_span(s, object, name),
            key_place(s, root(s), object.push(SegView::Key(name))),
        ),
{
    let i = root(s);
    let start = scan_start();
    let path = object.push(SegView::Key(name));
    lemma_skip_finds_nothing(s, 0, start);
    let (v, e) = value_at(s, i)->0;
    lemma_stops(s, e);
    let a = lemma_value(s, i, start);
    lemma_skip_finds_nothing(s, e, a);
    assert(scan(s) == a.spans);
    assert(key_fits(s, start.spans, a.spans, Seq::empty(), i, path));
    assert(Seq::<SegView>::empty() + path =~= path);
    lemma_key_of_member(scan(s), object, name, 0);
}

} // verus!
