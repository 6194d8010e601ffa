//! How the pieces of a text are read: white space, members, elements, objects
//! and arrays, put one behind the other.
use crate::jsonc::{
    document, is_blank, items_at, lemma_quoted_body_read, member_at, members_at, number_close,
    quoted, quoted_body, quoted_char, skip, string_from, value_at, JsonView,
};
use crate::locate::{is_number_char, line_end, word_at};
use crate::number::{all_digits, decimal, digit_run, is_digit};
use crate::text::spaces;
use vstd::prelude::*;

verus! {

/// The members of an object.
pub type Members = Seq<(Seq<char>, JsonView)>;

/// Whether the piece stands at `i`.
pub open spec fn at(s: Seq<char>, i: int, x: Seq<char>) -> bool {
    0 <= i && i + x.len() <= s.len() && s.subrange(i, i + x.len()) == x
}

pub proof fn lemma_at_split(s: Seq<char>, i: int, x: Seq<char>, y: Seq<char>)
    requires
        at(s, i, x + y),
    ensures
        at(s, i, x),
        at(s, i + x.len(), y),
{
    let w = s.subrange(i, i + (x + y).len());
    assert(s.subrange(i, i + x.len()) =~= w.take(x.len() as int));
    assert(w.take(x.len() as int) =~= x);
    assert(s.subrange(i + x.len(), i + x.len() + y.len()) =~= w.skip(x.len() as int));
    assert(w.skip(x.len() as int) =~= y);
}

pub proof fn lemma_at_char(s: Seq<char>, i: int, x: Seq<char>, k: int)
    requires
        at(s, i, x),
        0 <= k < x.len(),
    ensures
        s[i + k] == x[k],
{
    assert(s.subrange(i, i + x.len())[k] == s[i + k]);
}

// ── White space ──────────────────────────────────────────────────────
/// A text without line breaks.
pub open spec fn unbroken(x: Seq<char>) -> bool {
    forall|k: int| 0 <= k < x.len() ==> x[k] != '\n'
}

pub proof fn lemma_skip_bounds(s: Seq<char>, i: int)
    requires
        0 <= i <= s.len(),
        skip(s, i) is Some,
    ensures
        i <= skip(s, i)->0 <= s.len(),
    decreases s.len() - i,
{
    if i < s.len() {
        if is_blank(s[i]) {
            lemma_skip_bounds(s, i + 1);
        } else if s[i] == '/' && i + 1 < s.len() && s[i + 1] == '/' {
            if i < line_end(s, i) <= s.len() {
                lemma_skip_bounds(s, line_end(s, i));
            }
        } else if s[i] == '/' && i + 1 < s.len() && s[i + 1] == '*' {
            match crate::jsonc::comment_close(s, i + 2) {
                Some(e) => {
                    if i < e <= s.len() {
                        lemma_skip_bounds(s, e);
                    }
                },
                None => {},
            }
        }
    }
}

/// A piece that stands between tokens and means nothing.
pub open spec fn void(x: Seq<char>) -> bool {
    forall|s: Seq<char>, i: int| #[trigger] at(s, i, x) ==> skip(s, i) == skip(s, i + x.len())
}

pub proof fn lemma_void_concat(x: Seq<char>, y: Seq<char>)
    requires
        void(x),
        void(y),
    ensures
        void(x + y),
{
    assert forall|s: Seq<char>, i: int| #[trigger] at(s, i, x + y) implies skip(s, i) == skip(
        s,
        i + (x + y).len(),
    ) by {
        lemma_at_split(s, i, x, y);
    }
}

pub proof fn lemma_void_spaces(n: nat)
    ensures
        void(spaces(n)),
{
    assert forall|s: Seq<char>, i: int| #[trigger] at(s, i, spaces(n)) implies skip(s, i) == skip(
        s,
        i + spaces(n).len(),
    ) by {
        lemma_skip_spaces(s, i, n);
    }
}

proof fn lemma_skip_spaces(s: Seq<char>, i: int, n: nat)
    requires
        at(s, i, spaces(n)),
    ensures
        skip(s, i) == skip(s, i + n),
    decreases n,
{
    if n > 0 {
        let rest = spaces((n - 1) as nat);
        assert(spaces(n) =~= seq![' '] + rest);
        lemma_at_split(s, i, seq![' '], rest);
        lemma_at_char(s, i, seq![' '], 0);
        lemma_skip_spaces(s, i + 1, (n - 1) as nat);
    }
}

pub proof fn lemma_void_break()
    ensures
        void(seq!['\n']),
{
    assert forall|s: Seq<char>, i: int| #[trigger] at(s, i, seq!['\n']) implies skip(s, i) == skip(
        s,
        i + 1,
    ) by {
        lemma_at_char(s, i, seq!['\n'], 0);
    }
}

proof fn lemma_line_end_at(s: Seq<char>, i: int, x: Seq<char>)
    requires
        at(s, i, x + seq!['\n']),
        unbroken(x),
    ensures
        line_end(s, i) == i + x.len(),
    decreases x.len(),
{
    let y = x + seq!['\n'];
    lemma_at_char(s, i, y, 0);
    if x.len() > 0 {
        let rest = x.skip(1);
        assert(y =~= seq![x[0]] + (rest + seq!['\n']));
        lemma_at_split(s, i, seq![x[0]], rest + seq!['\n']);
        lemma_line_end_at(s, i + 1, rest);
    }
}

/// A comment to the end of its line.
pub proof fn lemma_void_comment(x: Seq<char>)
    requires
        unbroken(x),
    ensures
        void(seq!['/', '/'] + x + seq!['\n']),
{
    let c = seq!['/', '/'] + x;
    let y = c + seq!['\n'];
    assert forall|s: Seq<char>, i: int| #[trigger] at(s, i, y) implies skip(s, i) == skip(
        s,
        i + y.len(),
    ) by {
        assert(unbroken(c));
        lemma_line_end_at(s, i, c);
        lemma_at_char(s, i, y, 0);
        lemma_at_char(s, i, y, 1);
        lemma_at_char(s, i, y, c.len() as int);
        let e = i + c.len();
        assert(s[e] == '\n');
        assert(skip(s, e) == skip(s, e + 1));
        assert(s[i + 0] == '/' && s[i + 1] == '/');
        assert(line_end(s, i) == e);
    }
}

// ── Values ───────────────────────────────────────────────────────────
/// The piece spells the value, whatever follows it that is no part of a
/// number.
pub open spec fn reads(x: Seq<char>, v: JsonView) -> bool {
    forall|s: Seq<char>, i: int|
        #[trigger] at(s, i, x) && i + x.len() < s.len() && !is_number_char(s[i + x.len()])
            ==> value_at(s, i) == Some((v, i + x.len()))
}

/// The characters that a value can begin with.
pub open spec fn starts_value(c: char) -> bool {
    c == '{' || c == '[' || c == '"' || c == '-' || '0' <= c <= '9' || c == 't' || c == 'f' || c
        == 'n'
}

/// A value begins with a token.
pub proof fn lemma_value_is_token(s: Seq<char>, i: int)
    requires
        value_at(s, i) is Some,
    ensures
        0 <= i < s.len(),
        skip(s, i) == Some(i),
        starts_value(s[i]),
{
    if word_at(s, i, seq!['t', 'r', 'u', 'e']) {
        assert(s.subrange(i, i + 4)[0] == s[i]);
    }
    if word_at(s, i, seq!['f', 'a', 'l', 's', 'e']) {
        assert(s.subrange(i, i + 5)[0] == s[i]);
    }
    if word_at(s, i, seq!['n', 'u', 'l', 'l']) {
        assert(s.subrange(i, i + 4)[0] == s[i]);
    }
}

/// A text that stands between quotes as it is.
pub open spec fn plain(x: Seq<char>) -> bool {
    forall|k: int| 0 <= k < x.len() ==> x[k] != '"' && x[k] != '\\' && (#[trigger] x[k]) as nat >= 32
}

pub proof fn lemma_plain_body(x: Seq<char>)
    requires
        plain(x),
    ensures
        quoted_body(x) == x,
    decreases x.len(),
{
    if x.len() > 0 {
        let rest = x.drop_first();
        assert forall|k: int| 0 <= k < rest.len() implies rest[k] != '"' && rest[k] != '\\'
            && (#[trigger] rest[k]) as nat >= 32 by {
            assert(rest[k] == x[k + 1]);
        }
        lemma_plain_body(rest);
        assert(x[0] as nat >= 32);
        assert(quoted_char(x[0]) =~= seq![x[0]]);
        assert(seq![x[0]] + rest =~= x);
    } else {
        assert(x =~= Seq::empty());
    }
}

proof fn lemma_string_at(s: Seq<char>, i: int, t: Seq<char>)
    requires
        at(s, i, quoted(t)),
    ensures
        s[i] == '"',
        string_from(s, i + 1, Seq::empty()) == Some((t, (i + quoted(t).len()) as int)),
{
    let q = quoted(t);
    let before = s.take(i + 1);
    let rest = s.skip(i + q.len());
    lemma_at_char(s, i, q, 0);
    assert(s =~= before + quoted_body(t) + seq!['"'] + rest) by {
        assert forall|k: int| 0 <= k < s.len() implies s[k] == (before + quoted_body(t) + seq!['"']
            + rest)[k] by {
            if i < k < i + q.len() {
                lemma_at_char(s, i, q, k - i);
            }
        }
    }
    lemma_quoted_body_read(before, t, rest, Seq::empty());
    assert(Seq::<char>::empty() + t =~= t);
}

pub proof fn lemma_reads_quoted(t: Seq<char>)
    ensures
        reads(quoted(t), JsonView::Text(t)),
{
    assert forall|s: Seq<char>, i: int|
        #[trigger] at(s, i, quoted(t)) && i + quoted(t).len() < s.len() && !is_number_char(
            s[i + quoted(t).len()],
        ) implies value_at(s, i) == Some((JsonView::Text(t), i + quoted(t).len())) by {
        lemma_string_at(s, i, t);
    }
}

// ── Members ──────────────────────────────────────────────────────────
/// The members from the next token on.
pub open spec fn next_members(s: Seq<char>, i: int, before: Members) -> Option<(Members, int)> {
    match skip(s, i) {
        Some(j) => if 0 <= j <= s.len() {
            members_at(s, j, before)
        } else {
            None
        },
        None => None,
    }
}

/// The piece spells the members, each with its comma.
pub open spec fn spells(x: Seq<char>, m: Members) -> bool {
    forall|s: Seq<char>, i: int, before: Members|
        #![trigger at(s, i, x), next_members(s, i, before)]
        at(s, i, x) ==> next_members(s, i, before) == next_members(s, i + x.len(), before + m)
}

pub proof fn lemma_spells_at(s: Seq<char>, i: int, x: Seq<char>, m: Members, before: Members)
    requires
        spells(x, m),
        at(s, i, x),
    ensures
        next_members(s, i, before) == next_members(s, i + x.len(), before + m),
{
}

pub proof fn lemma_spells_void(x: Seq<char>)
    requires
        void(x),
    ensures
        spells(x, Seq::empty()),
{
    assert forall|s: Seq<char>, i: int, before: Members|
        #![trigger at(s, i, x), next_members(s, i, before)]
        at(s, i, x) implies next_members(s, i, before) == next_members(
        s,
        i + x.len(),
        before + Seq::<(Seq<char>, JsonView)>::empty(),
    ) by {
        assert(before + Seq::<(Seq<char>, JsonView)>::empty() =~= before);
    }
}

pub proof fn lemma_spells_concat(x: Seq<char>, m: Members, y: Seq<char>, n: Members)
    requires
        spells(x, m),
        spells(y, n),
    ensures
        spells(x + y, m + n),
{
    assert forall|s: Seq<char>, i: int, before: Members|
        #![trigger at(s, i, x + y), next_members(s, i, before)]
        at(s, i, x + y) implies next_members(s, i, before) == next_members(
        s,
        i + (x + y).len(),
        before + (m + n),
    ) by {
        lemma_at_split(s, i, x, y);
        lemma_spells_at(s, i, x, m, before);
        lemma_spells_at(s, i + x.len(), y, n, before + m);
        assert(before + m + n =~= before + (m + n));
    }
}

/// The text of a member, up to its comma.
pub open spec fn member_text(key: Seq<char>, literal: Seq<char>) -> Seq<char> {
    quoted(key) + seq![':', ' '] + literal
}

proof fn lemma_member_at(s: Seq<char>, i: int, key: Seq<char>, literal: Seq<char>, v: JsonView)
    requires
        at(s, i, member_text(key, literal)),
        reads(literal, v),
        ({
            let e = i + member_text(key, literal).len();
            e < s.len() && !is_number_char(s[e])
        }),
    ensures
        ({
            let e = i + member_text(key, literal).len();
            member_at(s, i) == (match skip(s, e) {
                Some(m) => Some((key, v, m)),
                None => None,
            })
        }),
        s[i] == '"',
{
    let q = quoted(key);
    let colon = seq![':', ' '];
    lemma_at_split(s, i, q + colon, literal);
    lemma_at_split(s, i, q, colon);
    lemma_string_at(s, i, key);
    let c = i + q.len();
    lemma_at_char(s, c, colon, 0);
    lemma_at_char(s, c, colon, 1);
    assert(skip(s, c) == Some(c));
    assert(at(s, c + 2, literal));
    assert(value_at(s, c + 2) == Some((v, c + 2 + literal.len())));
    lemma_value_is_token(s, c + 2);
    assert(skip(s, c + 1) == skip(s, c + 2));
}

pub proof fn lemma_spells_member(n: nat, key: Seq<char>, literal: Seq<char>, v: JsonView)
    requires
        reads(literal, v),
    ensures
        spells(spaces(n) + member_text(key, literal) + seq![','], seq![(key, v)]),
{
    let t = member_text(key, literal);
    let x = spaces(n) + t + seq![','];
    assert forall|s: Seq<char>, i: int, before: Members|
        #![trigger at(s, i, x), next_members(s, i, before)]
        at(s, i, x) implies next_members(s, i, before) == next_members(
        s,
        i + x.len(),
        before + seq![(key, v)],
    ) by {
        lemma_at_split(s, i, spaces(n) + t, seq![',']);
        lemma_at_split(s, i, spaces(n), t);
        lemma_skip_spaces(s, i, n);
        let k = i + n;
        let e = k + t.len();
        lemma_at_char(s, e, seq![','], 0);
        lemma_member_at(s, k, key, literal, v);
        assert(skip(s, k) == Some(k));
        assert(skip(s, e) == Some(e));
        if skip(s, e + 1) is Some {
            lemma_skip_bounds(s, e + 1);
        }
        assert(before + seq![(key, v)] =~= before.push((key, v)));
    }
}

/// An object whose members all have their commas.
pub proof fn lemma_reads_object(x: Seq<char>, m: Members, n: nat)
    requires
        spells(x, m),
    ensures
        reads(seq!['{'] + x + spaces(n) + seq!['}'], JsonView::Object(m)),
{
    let y = seq!['{'] + x + spaces(n) + seq!['}'];
    assert forall|s: Seq<char>, i: int|
        #[trigger] at(s, i, y) && i + y.len() < s.len() && !is_number_char(
            s[i + y.len()],
        ) implies value_at(s, i) == Some((JsonView::Object(m), i + y.len())) by {
        lemma_at_split(s, i, seq!['{'] + x + spaces(n), seq!['}']);
        lemma_at_split(s, i, seq!['{'] + x, spaces(n));
        lemma_at_split(s, i, seq!['{'], x);
        lemma_at_char(s, i, seq!['{'], 0);
        let p = i + 1 + x.len();
        lemma_skip_spaces(s, p, n);
        lemma_at_char(s, p + n, seq!['}'], 0);
        lemma_spells_at(s, i + 1, x, m, Seq::empty());
        assert(Seq::<(Seq<char>, JsonView)>::empty() + m =~= m);
        assert(skip(s, p + n) == Some(p + n));
        assert(next_members(s, p, m) == Some((m, p + n + 1)));
        assert(next_members(s, i + 1, Seq::empty()) == Some((m, p + n + 1)));
        lemma_skip_bounds(s, i + 1);
    }
}

/// An object whose last member has no comma.
pub proof fn lemma_reads_object_open(
    x: Seq<char>,
    m: Members,
    n: nat,
    key: Seq<char>,
    literal: Seq<char>,
    v: JsonView,
    k: nat,
)
    requires
        spells(x, m),
        reads(literal, v),
    ensures
        reads(
            seq!['{'] + x + spaces(n) + member_text(key, literal) + seq!['\n'] + spaces(k) + seq!['}'],
            JsonView::Object(m.push((key, v))),
        ),
{
    let t = member_text(key, literal);
    let y = seq!['{'] + x + spaces(n) + t + seq!['\n'] + spaces(k) + seq!['}'];
    assert forall|s: Seq<char>, i: int|
        #[trigger] at(s, i, y) && i + y.len() < s.len() && !is_number_char(
            s[i + y.len()],
        ) implies value_at(s, i) == Some((JsonView::Object(m.push((key, v))), i + y.len())) by {
        lemma_at_split(s, i, seq!['{'] + x + spaces(n) + t + seq!['\n'] + spaces(k), seq!['}']);
        lemma_at_split(s, i, seq!['{'] + x + spaces(n) + t + seq!['\n'], spaces(k));
        lemma_at_split(s, i, seq!['{'] + x + spaces(n) + t, seq!['\n']);
        lemma_at_split(s, i, seq!['{'] + x + spaces(n), t);
        lemma_at_split(s, i, seq!['{'] + x, spaces(n));
        lemma_at_split(s, i, seq!['{'], x);
        lemma_at_char(s, i, seq!['{'], 0);
        let p = i + 1 + x.len();
        let b = p + n;
        let e = b + t.len();
        lemma_skip_spaces(s, p, n);
        lemma_at_char(s, e, seq!['\n'], 0);
        lemma_skip_spaces(s, e + 1, k);
        let z = e + 1 + k;
        lemma_at_char(s, z, seq!['}'], 0);
        lemma_spells_at(s, i + 1, x, m, Seq::empty());
        assert(Seq::<(Seq<char>, JsonView)>::empty() + m =~= m);
        lemma_member_at(s, b, key, literal, v);
        assert(skip(s, b) == Some(b));
        assert(skip(s, z) == Some(z));
        assert(skip(s, e) == Some(z));
        assert(members_at(s, b, m) == Some((m.push((key, v)), z + 1)));
        assert(next_members(s, i + 1, Seq::empty()) == Some((m.push((key, v)), z + 1)));
        lemma_skip_bounds(s, i + 1);
    }
}

// ── Elements ─────────────────────────────────────────────────────────
/// The elements from the next token on.
pub open spec fn next_items(s: Seq<char>, i: int, before: Seq<JsonView>) -> Option<
    (Seq<JsonView>, int),
> {
    match skip(s, i) {
        Some(j) => if 0 <= j <= s.len() {
            items_at(s, j, before)
        } else {
            None
        },
        None => None,
    }
}

/// The piece spells the elements, each with its comma.
pub open spec fn lists(x: Seq<char>, v: Seq<JsonView>) -> bool {
    forall|s: Seq<char>, i: int, before: Seq<JsonView>|
        #![trigger at(s, i, x), next_items(s, i, before)]
        at(s, i, x) ==> next_items(s, i, before) == next_items(s, i + x.len(), before + v)
}

pub proof fn lemma_lists_at(
    s: Seq<char>,
    i: int,
    x: Seq<char>,
    v: Seq<JsonView>,
    before: Seq<JsonView>,
)
    requires
        lists(x, v),
        at(s, i, x),
    ensures
        next_items(s, i, before) == next_items(s, i + x.len(), before + v),
{
}

pub proof fn lemma_lists_void(x: Seq<char>)
    requires
        void(x),
    ensures
        lists(x, Seq::empty()),
{
    assert forall|s: Seq<char>, i: int, before: Seq<JsonView>|
        #![trigger at(s, i, x), next_items(s, i, before)]
        at(s, i, x) implies next_items(s, i, before) == next_items(
        s,
        i + x.len(),
        before + Seq::<JsonView>::empty(),
    ) by {
        assert(before + Seq::<JsonView>::empty() =~= before);
    }
}

pub proof fn lemma_lists_concat(x: Seq<char>, v: Seq<JsonView>, y: Seq<char>, w: Seq<JsonView>)
    requires
        lists(x, v),
        lists(y, w),
    ensures
        lists(x + y, v + w),
{
    assert forall|s: Seq<char>, i: int, before: Seq<JsonView>|
        #![trigger at(s, i, x + y), next_items(s, i, before)]
        at(s, i, x + y) implies next_items(s, i, before) == next_items(
        s,
        i + (x + y).len(),
        before + (v + w),
    ) by {
        lemma_at_split(s, i, x, y);
        lemma_lists_at(s, i, x, v, before);
        lemma_lists_at(s, i + x.len(), y, w, before + v);
        assert(before + v + w =~= before + (v + w));
    }
}

pub proof fn lemma_lists_element(n: nat, literal: Seq<char>, v: JsonView)
    requires
        reads(literal, v),
        literal.len() > 0,
    ensures
        lists(spaces(n) + literal + seq![','], seq![v]),
{
    let x = spaces(n) + literal + seq![','];
    assert forall|s: Seq<char>, i: int, before: Seq<JsonView>|
        #![trigger at(s, i, x), next_items(s, i, before)]
        at(s, i, x) implies next_items(s, i, before) == next_items(
        s,
        i + x.len(),
        before + seq![v],
    ) by {
        lemma_at_split(s, i, spaces(n) + literal, seq![',']);
        lemma_at_split(s, i, spaces(n), literal);
        lemma_skip_spaces(s, i, n);
        let k = i + n;
        let e = k + literal.len();
        lemma_at_char(s, e, seq![','], 0);
        assert(value_at(s, k) == Some((v, e)));
        lemma_value_is_token(s, k);
        assert(skip(s, e) == Some(e));
        if skip(s, e + 1) is Some {
            lemma_skip_bounds(s, e + 1);
        }
        assert(before + seq![v] =~= before.push(v));
    }
}

/// An array whose elements all have their commas.
pub proof fn lemma_reads_array(x: Seq<char>, v: Seq<JsonView>, n: nat)
    requires
        lists(x, v),
    ensures
        reads(seq!['['] + x + spaces(n) + seq![']'], JsonView::Array(v)),
{
    let y = seq!['['] + x + spaces(n) + seq![']'];
    assert forall|s: Seq<char>, i: int|
        #[trigger] at(s, i, y) && i + y.len() < s.len() && !is_number_char(
            s[i + y.len()],
        ) implies value_at(s, i) == Some((JsonView::Array(v), i + y.len())) by {
        lemma_at_split(s, i, seq!['['] + x + spaces(n), seq![']']);
        lemma_at_split(s, i, seq!['['] + x, spaces(n));
        lemma_at_split(s, i, seq!['['], x);
        lemma_at_char(s, i, seq!['['], 0);
        let p = i + 1 + x.len();
        lemma_skip_spaces(s, p, n);
        lemma_at_char(s, p + n, seq![']'], 0);
        lemma_lists_at(s, i + 1, x, v, Seq::empty());
        assert(Seq::<JsonView>::empty() + v =~= v);
        assert(skip(s, p + n) == Some(p + n));
        assert(next_items(s, p, v) == Some((v, p + n + 1)));
        assert(next_items(s, i + 1, Seq::empty()) == Some((v, p + n + 1)));
        lemma_skip_bounds(s, i + 1);
    }
}

/// An array whose last element has no comma.
pub proof fn lemma_reads_array_open(
    x: Seq<char>,
    v: Seq<JsonView>,
    n: nat,
    literal: Seq<char>,
    last: JsonView,
    k: nat,
)
    requires
        lists(x, v),
        reads(literal, last),
        literal.len() > 0,
    ensures
        reads(
            seq!['['] + x + spaces(n) + literal + seq!['\n'] + spaces(k) + seq![']'],
            JsonView::Array(v.push(last)),
        ),
{
    let y = seq!['['] + x + spaces(n) + literal + seq!['\n'] + spaces(k) + seq![']'];
    assert forall|s: Seq<char>, i: int|
        #[trigger] at(s, i, y) && i + y.len() < s.len() && !is_number_char(
            s[i + y.len()],
        ) implies value_at(s, i) == Some((JsonView::Array(v.push(last)), i + y.len())) by {
        lemma_at_split(s, i, seq!['['] + x + spaces(n) + literal + seq!['\n'] + spaces(k), seq![']']);
        lemma_at_split(s, i, seq!['['] + x + spaces(n) + literal + seq!['\n'], spaces(k));
        lemma_at_split(s, i, seq!['['] + x + spaces(n) + literal, seq!['\n']);
        lemma_at_split(s, i, seq!['['] + x + spaces(n), literal);
        lemma_at_split(s, i, seq!['['] + x, spaces(n));
        lemma_at_split(s, i, seq!['['], x);
        lemma_at_char(s, i, seq!['['], 0);
        let p = i + 1 + x.len();
        let b = p + n;
        let e = b + literal.len();
        lemma_skip_spaces(s, p, n);
        lemma_at_char(s, e, seq!['\n'], 0);
        lemma_skip_spaces(s, e + 1, k);
        let z = e + 1 + k;
        lemma_at_char(s, z, seq![']'], 0);
        lemma_lists_at(s, i + 1, x, v, Seq::empty());
        assert(Seq::<JsonView>::empty() + v =~= v);
        assert(value_at(s, b) == Some((last, e)));
        lemma_value_is_token(s, b);
        assert(skip(s, z) == Some(z));
        assert(skip(s, e) == Some(z));
        assert(items_at(s, b, v) == Some((v.push(last), z + 1)));
        assert(next_items(s, i + 1, Seq::empty()) == Some((v.push(last), z + 1)));
        lemma_skip_bounds(s, i + 1);
    }
}

// ── Scalars ──────────────────────────────────────────────────────────
proof fn lemma_digits_at(s: Seq<char>, i: int, t: Seq<char>, k: int)
    requires
        at(s, i, t),
        0 <= k <= t.len(),
        i + t.len() < s.len(),
        !is_number_char(s[i + t.len()]),
    ensures
        digit_run(s, i + k) == i + digit_run(t, k),
        k <= digit_run(t, k) <= t.len(),
    decreases t.len() - k,
{
    if k < t.len() {
        lemma_at_char(s, i, t, k);
        if is_digit(t[k]) {
            lemma_digits_at(s, i, t, k + 1);
        }
    }
}

/// A text that is one number from end to end.
pub open spec fn is_number(t: Seq<char>) -> bool {
    t.len() > 0 && (t[0] == '-' || is_digit(t[0])) && number_close(t, 0) == Some(t.len() as int)
}

#[verifier::rlimit(50)]
pub proof fn lemma_reads_number(t: Seq<char>)
    requires
        is_number(t),
    ensures
        reads(t, JsonView::Number(t)),
{
    assert forall|s: Seq<char>, i: int|
        #[trigger] at(s, i, t) && i + t.len() < s.len() && !is_number_char(
            s[i + t.len()],
        ) implies value_at(s, i) == Some((JsonView::Number(t), i + t.len())) by {
        assert forall|k: int| 0 <= k < t.len() implies #[trigger] s[i + k] == t[k] by {
            lemma_at_char(s, i, t, k);
        }
        assert forall|k: int| 0 <= k <= t.len() implies #[trigger] digit_run(s, i + k) == i
            + digit_run(t, k) && k <= digit_run(t, k) <= t.len() by {
            lemma_digits_at(s, i, t, k);
        }
        assert(s[i + 0] == t[0]);
        let w: int = if t[0] == '-' {
            1
        } else {
            0
        };
        assert(s[i + w] == t[w]);
        lemma_digits_at(s, i, t, w);
        let wend = if t[w] == '0' {
            w + 1
        } else {
            digit_run(t, w)
        };
        assert(wend <= t.len());
        if wend < t.len() {
            assert(s[i + wend] == t[wend]);
        }
        let fend = if wend < t.len() && t[wend] == '.' {
            lemma_digits_at(s, i, t, wend + 1);
            digit_run(t, wend + 1)
        } else {
            wend
        };
        if fend < t.len() {
            assert(s[i + fend] == t[fend]);
            if fend + 1 < t.len() {
                assert(s[i + (fend + 1)] == t[fend + 1]);
                lemma_digits_at(s, i, t, fend + 2);
            }
            lemma_digits_at(s, i, t, fend + 1);
        }
        assert(number_close(s, i) == Some(i + t.len()));
    }
}

proof fn lemma_decimal_shape(n: nat)
    ensures
        decimal(n).len() > 0,
        all_digits(decimal(n)),
        n > 0 ==> decimal(n)[0] != '0',
        n < 10 ==> decimal(n).len() == 1,
    decreases n,
{
    if n >= 10 {
        lemma_decimal_shape(n / 10);
    }
}

proof fn lemma_all_digits_run(t: Seq<char>, k: int)
    requires
        all_digits(t),
        0 <= k <= t.len(),
    ensures
        digit_run(t, k) == t.len(),
    decreases t.len() - k,
{
    if k < t.len() {
        lemma_all_digits_run(t, k + 1);
    }
}

pub proof fn lemma_reads_decimal(n: nat)
    ensures
        reads(decimal(n), JsonView::Number(decimal(n))),
        decimal(n).len() > 0,
{
    let t = decimal(n);
    lemma_decimal_shape(n);
    lemma_all_digits_run(t, 0);
    assert(is_digit(t[0]));
    lemma_reads_number(t);
}

pub proof fn lemma_reads_truth(b: bool)
    ensures
        reads(
            if b {
                seq!['t', 'r', 'u', 'e']
            } else {
                seq!['f', 'a', 'l', 's', 'e']
            },
            JsonView::Bool(b),
        ),
{
    let w = if b {
        seq!['t', 'r', 'u', 'e']
    } else {
        seq!['f', 'a', 'l', 's', 'e']
    };
    assert forall|s: Seq<char>, i: int|
        #[trigger] at(s, i, w) && i + w.len() < s.len() && !is_number_char(
            s[i + w.len()],
        ) implies value_at(s, i) == Some((JsonView::Bool(b), i + w.len())) by {
        lemma_at_char(s, i, w, 0);
        if !b && word_at(s, i, seq!['t', 'r', 'u', 'e']) {
            assert(s.subrange(i, i + 4)[0] == s[i]);
        }
    }
}

// ── Documents ────────────────────────────────────────────────────────
/// A document: white space and comments, a value, a line break.
pub proof fn lemma_document(x: Seq<char>, y: Seq<char>, v: JsonView)
    requires
        void(x),
        reads(y, v),
    ensures
        document(x + y + seq!['\n']) == Some(v),
{
    let s = x + y + seq!['\n'];
    assert(s.subrange(0, x.len() as int) =~= x);
    assert(at(s, 0, x));
    let i = x.len() as int;
    assert(s.subrange(i, i + y.len()) =~= y);
    assert(at(s, i, y));
    let e = i + y.len();
    assert(s[e] == '\n');
    assert(value_at(s, i) == Some((v, e)));
    lemma_value_is_token(s, i);
    assert(skip(s, 0) == skip(s, i));
    assert(skip(s, e + 1) == Some(e + 1));
}

} // verus!
