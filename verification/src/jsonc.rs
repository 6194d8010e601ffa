//! JSON with comments: values, the grammar, and the quoted form of a text.
//!
//! A document is one JSON value. White space, `//` comments and `/* */`
//! comments may stand between tokens, and a comma may stand behind the last
//! member or element.
use crate::locate::{hex_value, line_end};
use crate::text::{from_chars, owned, same, to_chars};
use vstd::prelude::*;

verus! {

/// A JSON value. Numbers keep their text, and objects the order of their
/// members.
#[derive(Debug, PartialEq)]
pub enum Json {
    Null,
    Bool(bool),
    Number(String),
    Text(String),
    Array(Vec<Json>),
    Object(Vec<(String, Json)>),
}

/// The meaning of a [`Json`].
pub enum JsonView {
    Null,
    Bool(bool),
    Number(Seq<char>),
    Text(Seq<char>),
    Array(Seq<JsonView>),
    Object(Seq<(Seq<char>, JsonView)>),
}

/// The meaning of a JSON value.
pub open spec fn json_view(j: Json) -> JsonView
    decreases j,
{
    match j {
        Json::Null => JsonView::Null,
        Json::Bool(b) => JsonView::Bool(b),
        Json::Number(t) => JsonView::Number(t@),
        Json::Text(t) => JsonView::Text(t@),
        Json::Array(v) => JsonView::Array(items_view(v@)),
        Json::Object(m) => JsonView::Object(members_view(m@)),
    }
}

/// The meaning of the elements of an array.
pub open spec fn items_view(v: Seq<Json>) -> Seq<JsonView>
    decreases v,
{
    if v.len() == 0 {
        Seq::empty()
    } else {
        items_view(v.drop_last()).push(json_view(v.last()))
    }
}

/// The meaning of the members of an object.
pub open spec fn members_view(m: Seq<(String, Json)>) -> Seq<(Seq<char>, JsonView)>
    decreases m,
{
    if m.len() == 0 {
        Seq::empty()
    } else {
        members_view(m.drop_last()).push((m.last().0@, json_view(m.last().1)))
    }
}

impl View for Json {
    type V = JsonView;

    open spec fn view(&self) -> JsonView {
        json_view(*self)
    }
}

/// The view of a list of elements has the view of each element.
pub proof fn lemma_items_view(v: Seq<Json>)
    ensures
        items_view(v).len() == v.len(),
        forall|i: int| 0 <= i < v.len() ==> #[trigger] items_view(v)[i] == json_view(v[i]),
    decreases v.len(),
{
    if v.len() > 0 {
        lemma_items_view(v.drop_last());
    }
}

/// The view of a list of members has the view of each member.
pub proof fn lemma_members_view(m: Seq<(String, Json)>)
    ensures
        members_view(m).len() == m.len(),
        forall|i: int|
            0 <= i < m.len() ==> #[trigger] members_view(m)[i] == (m[i].0@, json_view(m[i].1)),
    decreases m.len(),
{
    if m.len() > 0 {
        lemma_members_view(m.drop_last());
    }
}

/// The members are those whose names and values are these.
pub proof fn lemma_object(m: Seq<(String, Json)>, v: Seq<(Seq<char>, JsonView)>)
    requires
        m.len() == v.len(),
        forall|i: int| 0 <= i < m.len() ==> #[trigger] v[i] == (m[i].0@, json_view(m[i].1)),
    ensures
        members_view(m) == v,
{
    lemma_members_view(m);
    assert(members_view(m) =~= v);
}

// ── Between tokens ───────────────────────────────────────────────────
/// The position behind the first `*/` at or after `i`.
pub open spec fn comment_close(s: Seq<char>, i: int) -> Option<int>
    decreases s.len() - i,
{
    if i + 1 >= s.len() {
        None
    } else if s[i] == '*' && s[i + 1] == '/' {
        Some(i + 2)
    } else {
        comment_close(s, i + 1)
    }
}

/// White space between tokens.
pub open spec fn is_blank(c: char) -> bool {
    c == ' ' || c == '\t' || c == '\r' || c == '\n'
}

/// The position of the next token at or after `i`, or of the end. There is
/// none behind a block comment that does not end.
pub open spec fn skip(s: Seq<char>, i: int) -> Option<int>
    decreases s.len() - i,
{
    if i < 0 || i >= s.len() {
        Some(i)
    } else if is_blank(s[i]) {
        skip(s, i + 1)
    } else if s[i] == '/' && i + 1 < s.len() && s[i + 1] == '/' {
        let e = line_end(s, i);
        if i < e <= s.len() {
            skip(s, e)
        } else {
            None
        }
    } else if s[i] == '/' && i + 1 < s.len() && s[i + 1] == '*' {
        match comment_close(s, i + 2) {
            Some(e) => if i < e <= s.len() {
                skip(s, e)
            } else {
                None
            },
            None => None,
        }
    } else {
        Some(i)
    }
}

// ── Scalars ──────────────────────────────────────────────────────────
/// The character that a short escape stands for.
pub open spec fn short_escape(c: char) -> Option<char> {
    if c == '"' || c == '\\' || c == '/' {
        Some(c)
    } else if c == 'b' {
        Some('\u{8}')
    } else if c == 'f' {
        Some('\u{c}')
    } else if c == 'n' {
        Some('\n')
    } else if c == 'r' {
        Some('\r')
    } else if c == 't' {
        Some('\t')
    } else {
        None
    }
}

/// The number that four hexadecimal digits at `i` spell.
pub open spec fn code_unit(s: Seq<char>, i: int) -> Option<nat> {
    if 0 <= i && i + 4 <= s.len() && hex_value(s[i]) is Some && hex_value(s[i + 1]) is Some
        && hex_value(s[i + 2]) is Some && hex_value(s[i + 3]) is Some {
        Some(
            hex_value(s[i])->0 * 4096 + hex_value(s[i + 1])->0 * 256 + hex_value(s[i + 2])->0 * 16
                + hex_value(s[i + 3])->0,
        )
    } else {
        None
    }
}

/// The character of a `\u` escape whose digits start at `i`, and the position
/// behind it. Characters beyond the basic plane take a surrogate pair.
pub open spec fn unicode_escape(s: Seq<char>, i: int) -> Option<(char, int)> {
    match code_unit(s, i) {
        None => None,
        Some(hi) => if hi < 0xd800 || hi > 0xdfff {
            Some((hi as char, i + 4))
        } else if hi <= 0xdbff && i + 6 <= s.len() && s[i + 4] == '\\' && s[i + 5] == 'u' {
            match code_unit(s, i + 6) {
                Some(lo) => if 0xdc00 <= lo <= 0xdfff {
                    Some(((0x10000 + (hi - 0xd800) * 1024 + (lo - 0xdc00)) as char, i + 10))
                } else {
                    None
                },
                None => None,
            }
        } else {
            None
        },
    }
}

/// What a string spells whose content goes on at `i` and spelled `before` up
/// to there, and the position behind its closing quote.
pub open spec fn string_from(s: Seq<char>, i: int, before: Seq<char>) -> Option<(Seq<char>, int)>
    decreases s.len() - i,
{
    if i < 0 || i >= s.len() {
        None
    } else if s[i] == '"' {
        Some((before, i + 1))
    } else if s[i] == '\\' {
        if i + 1 >= s.len() {
            None
        } else if s[i + 1] == 'u' {
            match unicode_escape(s, i + 2) {
                Some((c, e)) => if i < e <= s.len() {
                    string_from(s, e, before.push(c))
                } else {
                    None
                },
                None => None,
            }
        } else {
            match short_escape(s[i + 1]) {
                Some(c) => string_from(s, i + 2, before.push(c)),
                None => None,
            }
        }
    } else if (s[i] as u32) < 0x20 {
        None
    } else {
        string_from(s, i + 1, before.push(s[i]))
    }
}

/// The position behind the digits at `i`.
pub open spec fn digits_end(s: Seq<char>, i: int) -> int {
    crate::number::digit_run(s, i)
}

/// The position behind the number at `i`: a minus sign or none, a whole part
/// without needless zeros, a fraction or none, an exponent or none.
pub open spec fn number_close(s: Seq<char>, i: int) -> Option<int> {
    let w = if s[i] == '-' {
        i + 1
    } else {
        i
    };
    if !(w < s.len() && '0' <= s[w] <= '9') {
        None
    } else {
        let wend = if s[w] == '0' {
            w + 1
        } else {
            digits_end(s, w)
        };
        let fend = if wend < s.len() && s[wend] == '.' {
            digits_end(s, wend + 1)
        } else {
            wend
        };
        if fend == wend + 1 {
            None
        } else if fend < s.len() && (s[fend] == 'e' || s[fend] == 'E') {
            let x = if fend + 1 < s.len() && (s[fend + 1] == '+' || s[fend + 1] == '-') {
                fend + 2
            } else {
                fend + 1
            };
            let xend = digits_end(s, x);
            if xend == x {
                None
            } else {
                Some(xend)
            }
        } else {
            Some(fend)
        }
    }
}

// ── Values ───────────────────────────────────────────────────────────
/// The value at `i` and the position behind it.
pub open spec fn value_at(s: Seq<char>, i: int) -> Option<(JsonView, int)>
    decreases s.len() - i, 0int,
{
    if i < 0 || i >= s.len() {
        None
    } else if s[i] == '{' {
        match skip(s, i + 1) {
            Some(j) => if i < j <= s.len() {
                match members_at(s, j, Seq::empty()) {
                    Some((m, e)) => Some((JsonView::Object(m), e)),
                    None => None,
                }
            } else {
                None
            },
            None => None,
        }
    } else if s[i] == '[' {
        match skip(s, i + 1) {
            Some(j) => if i < j <= s.len() {
                match items_at(s, j, Seq::empty()) {
                    Some((v, e)) => Some((JsonView::Array(v), e)),
                    None => None,
                }
            } else {
                None
            },
            None => None,
        }
    } else if s[i] == '"' {
        match string_from(s, i + 1, Seq::empty()) {
            Some((t, e)) => Some((JsonView::Text(t), e)),
            None => None,
        }
    } else if s[i] == '-' || '0' <= s[i] <= '9' {
        match number_close(s, i) {
            Some(e) => Some((JsonView::Number(s.subrange(i, e)), e)),
            None => None,
        }
    } else {
        match crate::locate::word_end(s, i) {
            Some(e) => Some(
                (
                    if s[i] == 't' {
                        JsonView::Bool(true)
                    } else if s[i] == 'f' {
                        JsonView::Bool(false)
                    } else {
                        JsonView::Null
                    },
                    e,
                ),
            ),
            None => None,
        }
    }
}

/// The members of an object from the token at `i` on, behind those in
/// `before`, and the position behind its closing brace.
pub open spec fn members_at(s: Seq<char>, i: int, before: Seq<(Seq<char>, JsonView)>) -> Option<
    (Seq<(Seq<char>, JsonView)>, int),
>
    decreases s.len() - i, 1int,
{
    if i < 0 || i >= s.len() {
        None
    } else if s[i] == '}' {
        Some((before, i + 1))
    } else if s[i] == '"' {
        match member_at(s, i) {
            Some((name, value, m)) => if i < m < s.len() {
                if s[m] == '}' {
                    Some((before.push((name, value)), m + 1))
                } else if s[m] == ',' {
                    match skip(s, m + 1) {
                        Some(n) => if i < n <= s.len() {
                            members_at(s, n, before.push((name, value)))
                        } else {
                            None
                        },
                        None => None,
                    }
                } else {
                    None
                }
            } else {
                None
            },
            None => None,
        }
    } else {
        None
    }
}

/// The member whose key stands at `i`, and the position of the token behind
/// its value.
pub open spec fn member_at(s: Seq<char>, i: int) -> Option<(Seq<char>, JsonView, int)>
    decreases s.len() - i, 0int,
{
    match string_from(s, i + 1, Seq::empty()) {
        Some((name, k)) => match skip(s, k) {
            Some(c) => if i < c < s.len() && s[c] == ':' {
                match skip(s, c + 1) {
                    Some(v) => if i < v <= s.len() {
                        match value_at(s, v) {
                            Some((value, e)) => match skip(s, e) {
                                Some(m) => Some((name, value, m)),
                                None => None,
                            },
                            None => None,
                        }
                    } else {
                        None
                    },
                    None => None,
                }
            } else {
                None
            },
            None => None,
        },
        None => None,
    }
}

/// The elements of an array from the token at `i` on, behind those in
/// `before`, and the position behind its closing bracket.
pub open spec fn items_at(s: Seq<char>, i: int, before: Seq<JsonView>) -> Option<
    (Seq<JsonView>, int),
>
    decreases s.len() - i, 1int,
{
    if i < 0 || i >= s.len() {
        None
    } else if s[i] == ']' {
        Some((before, i + 1))
    } else {
        match value_at(s, i) {
            Some((value, e)) => match skip(s, e) {
                Some(m) => if i < m < s.len() {
                    if s[m] == ']' {
                        Some((before.push(value), m + 1))
                    } else if s[m] == ',' {
                        match skip(s, m + 1) {
                            Some(n) => if i < n <= s.len() {
                                items_at(s, n, before.push(value))
                            } else {
                                None
                            },
                            None => None,
                        }
                    } else {
                        None
                    }
                } else {
                    None
                },
                None => None,
            },
            None => None,
        }
    }
}

/// The value of a document.
pub open spec fn document(s: Seq<char>) -> Option<JsonView> {
    match skip(s, 0) {
        Some(i) => match value_at(s, i) {
            Some((v, e)) => if skip(s, e) == Some(s.len() as int) {
                Some(v)
            } else {
                None
            },
            None => None,
        },
        None => None,
    }
}

// ── Reading ──────────────────────────────────────────────────────────
fn find_comment_close(chars: &Vec<char>, from: usize) -> (r: Option<usize>)
    requires
        from <= chars.len(),
    ensures
        r is Some <==> comment_close(chars@, from as int) is Some,
        r is Some ==> comment_close(chars@, from as int) == Some(r->0 as int) && from < r->0
            <= chars.len(),
{
    let mut i: usize = from;
    while i < chars.len() && chars.len() - i > 1
        invariant
            from <= i <= chars.len(),
            comment_close(chars@, i as int) == comment_close(chars@, from as int),
        decreases chars.len() - i,
    {
        if chars[i] == '*' && chars[i + 1] == '/' {
            return Some(i + 2);
        }
        i += 1;
    }
    None
}

fn find_line_end(chars: &Vec<char>, from: usize) -> (r: usize)
    requires
        from < chars.len(),
        chars@[from as int] != '\n',
    ensures
        r == line_end(chars@, from as int),
        from < r <= chars.len(),
{
    let mut i: usize = from + 1;
    while i < chars.len() && chars[i] != '\n'
        invariant
            from < i <= chars.len(),
            line_end(chars@, i as int) == line_end(chars@, from as int),
        decreases chars.len() - i,
    {
        i += 1;
    }
    i
}

fn skip_blank(chars: &Vec<char>, from: usize) -> (r: Option<usize>)
    requires
        from <= chars.len(),
    ensures
        r is Some <==> skip(chars@, from as int) is Some,
        r is Some ==> skip(chars@, from as int) == Some(r->0 as int) && from <= r->0 <= chars.len(),
{
    let mut i: usize = from;
    while i < chars.len()
        invariant
            from <= i <= chars.len(),
            skip(chars@, i as int) == skip(chars@, from as int),
        decreases chars.len() - i,
    {
        let c = chars[i];
        if c == ' ' || c == '\t' || c == '\r' || c == '\n' {
            i += 1;
        } else if c == '/' && chars.len() - i > 1 && chars[i + 1] == '/' {
            i = find_line_end(chars, i);
        } else if c == '/' && chars.len() - i > 1 && chars[i + 1] == '*' {
            match find_comment_close(chars, i + 2) {
                Some(e) => {
                    i = e;
                },
                None => {
                    return None;
                },
            }
        } else {
            return Some(i);
        }
    }
    Some(i)
}

fn hex(c: char) -> (r: Option<u32>)
    ensures
        r is Some <==> hex_value(c) is Some,
        r is Some ==> hex_value(c) == Some(r->0 as nat) && r->0 < 16,
{
    if '0' <= c && c <= '9' {
        Some(c as u32 - 48)
    } else if 'a' <= c && c <= 'f' {
        Some(c as u32 - 87)
    } else if 'A' <= c && c <= 'F' {
        Some(c as u32 - 55)
    } else {
        None
    }
}

fn read_code_unit(chars: &Vec<char>, i: usize) -> (r: Option<u32>)
    requires
        i <= chars.len(),
    ensures
        r is Some <==> code_unit(chars@, i as int) is Some,
        r is Some ==> code_unit(chars@, i as int) == Some(r->0 as nat) && r->0 <= 0xffff && i + 4
            <= chars.len(),
{
    if chars.len() - i < 4 {
        return None;
    }
    match (hex(chars[i]), hex(chars[i + 1]), hex(chars[i + 2]), hex(chars[i + 3])) {
        (Some(a), Some(b), Some(c), Some(d)) => Some(a * 4096 + b * 256 + c * 16 + d),
        _ => None,
    }
}

fn read_unicode_escape(chars: &Vec<char>, i: usize) -> (r: Option<(char, usize)>)
    requires
        i <= chars.len(),
    ensures
        r is Some <==> unicode_escape(chars@, i as int) is Some,
        r matches Some((c, e)) ==> unicode_escape(chars@, i as int) == Some((c, e as int)) && i < e
            <= chars.len(),
{
    let hi: u32 = match read_code_unit(chars, i) {
        Some(n) => n,
        None => {
            return None;
        },
    };
    if hi < 0xd800 || hi > 0xdfff {
        return match char::from_u32(hi) {
            Some(c) => Some((c, i + 4)),
            None => None,
        };
    }
    if !(hi <= 0xdbff && chars.len() - i >= 6 && chars[i + 4] == '\\' && chars[i + 5] == 'u') {
        return None;
    }
    let lo: u32 = match read_code_unit(chars, i + 6) {
        Some(n) => n,
        None => {
            return None;
        },
    };
    if !(0xdc00 <= lo && lo <= 0xdfff) {
        return None;
    }
    match char::from_u32(0x10000 + (hi - 0xd800) * 1024 + (lo - 0xdc00)) {
        Some(c) => Some((c, i + 10)),
        None => None,
    }
}

fn read_string(chars: &Vec<char>, from: usize) -> (r: Option<(String, usize)>)
    requires
        from <= chars.len(),
    ensures
        r is Some <==> string_from(chars@, from as int, Seq::empty()) is Some,
        r matches Some((t, e)) ==> string_from(chars@, from as int, Seq::empty()) == Some(
            (t@, e as int),
        ) && from < e <= chars.len(),
{
    let mut out = String::new();
    let mut i: usize = from;
    assert(out@ =~= Seq::empty());
    while i < chars.len()
        invariant
            from <= i <= chars.len(),
            string_from(chars@, i as int, out@) == string_from(
                chars@,
                from as int,
                Seq::empty(),
            ),
        decreases chars.len() - i,
    {
        let c = chars[i];
        if c == '"' {
            return Some((out, i + 1));
        }
        if c == '\\' {
            if chars.len() - i < 2 {
                return None;
            }
            let d = chars[i + 1];
            if d == 'u' {
                match read_unicode_escape(chars, i + 2) {
                    Some((ch, e)) => {
                        out.push(ch);
                        i = e;
                    },
                    None => {
                        return None;
                    },
                }
            } else {
                let ch = if d == '"' || d == '\\' || d == '/' {
                    d
                } else if d == 'b' {
                    '\u{8}'
                } else if d == 'f' {
                    '\u{c}'
                } else if d == 'n' {
                    '\n'
                } else if d == 'r' {
                    '\r'
                } else if d == 't' {
                    '\t'
                } else {
                    return None;
                };
                out.push(ch);
                i += 2;
            }
        } else if (c as u32) < 0x20 {
            return None;
        } else {
            out.push(c);
            i += 1;
        }
    }
    None
}

fn skip_digits(chars: &Vec<char>, from: usize) -> (r: usize)
    requires
        from <= chars.len(),
    ensures
        r == digits_end(chars@, from as int),
        from <= r <= chars.len(),
        from < chars.len() && '0' <= chars@[from as int] <= '9' ==> from < r,
    decreases chars.len() - from,
{
    if from < chars.len() && '0' <= chars[from] && chars[from] <= '9' {
        skip_digits(chars, from + 1)
    } else {
        from
    }
}

fn read_number(chars: &Vec<char>, i: usize) -> (r: Option<usize>)
    requires
        i < chars.len(),
    ensures
        r is Some <==> number_close(chars@, i as int) is Some,
        r is Some ==> number_close(chars@, i as int) == Some(r->0 as int) && i < r->0
            <= chars.len(),
{
    let w: usize = if chars[i] == '-' {
        i + 1
    } else {
        i
    };
    if !(w < chars.len() && '0' <= chars[w] && chars[w] <= '9') {
        return None;
    }
    let wend: usize = if chars[w] == '0' {
        w + 1
    } else {
        skip_digits(chars, w)
    };
    let fend: usize = if wend < chars.len() && chars[wend] == '.' {
        skip_digits(chars, wend + 1)
    } else {
        wend
    };
    if fend > wend && fend - wend == 1 {
        return None;
    }
    if fend < chars.len() && (chars[fend] == 'e' || chars[fend] == 'E') {
        let x: usize = if fend + 1 < chars.len() && (chars[fend + 1] == '+' || chars[fend + 1]
            == '-') {
            fend + 2
        } else {
            fend + 1
        };
        let xend: usize = skip_digits(chars, x);
        if xend == x {
            return None;
        }
        return Some(xend);
    }
    Some(fend)
}

fn starts_word(chars: &Vec<char>, i: usize, w: &str) -> (r: bool)
    requires
        i <= chars.len(),
    ensures
        r == crate::locate::word_at(chars@, i as int, w@),
{
    let word = to_chars(w);
    if chars.len() - i < word.len() {
        return false;
    }
    let found = from_chars(chars, i, i + word.len());
    same(found.as_str(), w)
}

fn read_word(chars: &Vec<char>, i: usize) -> (r: Option<(Json, usize)>)
    requires
        i < chars.len(),
    ensures
        r is Some <==> crate::locate::word_end(chars@, i as int) is Some,
        r matches Some((j, e)) ==> {
            &&& crate::locate::word_end(chars@, i as int) == Some(e as int)
            &&& i < e <= chars.len()
            &&& j@ == if chars@[i as int] == 't' {
                JsonView::Bool(true)
            } else if chars@[i as int] == 'f' {
                JsonView::Bool(false)
            } else {
                JsonView::Null
            }
        },
{
    proof {
        reveal_strlit("true");
        reveal_strlit("false");
        reveal_strlit("null");
        assert("true"@ =~= seq!['t', 'r', 'u', 'e']);
        assert("false"@ =~= seq!['f', 'a', 'l', 's', 'e']);
        assert("null"@ =~= seq!['n', 'u', 'l', 'l']);
    }
    let ghost s = chars@;
    if starts_word(chars, i, "true") {
        assert(s.subrange(i as int, i + 4)[0] == s[i as int]);
        return Some((Json::Bool(true), i + 4));
    }
    if starts_word(chars, i, "false") {
        assert(s.subrange(i as int, i + 5)[0] == s[i as int]);
        return Some((Json::Bool(false), i + 5));
    }
    if starts_word(chars, i, "null") {
        assert(s.subrange(i as int, i + 4)[0] == s[i as int]);
        return Some((Json::Null, i + 4));
    }
    None
}

fn read_value(chars: &Vec<char>, i: usize) -> (r: Option<(Json, usize)>)
    requires
        i <= chars.len(),
    ensures
        r is Some <==> value_at(chars@, i as int) is Some,
        r matches Some((j, e)) ==> value_at(chars@, i as int) == Some((j@, e as int)) && i < e
            <= chars.len(),
    decreases chars.len() - i, 0int,
{
    if i >= chars.len() {
        return None;
    }
    let c = chars[i];
    if c == '{' {
        match skip_blank(chars, i + 1) {
            Some(j) => match read_members(chars, j) {
                Some((m, e)) => Some((Json::Object(m), e)),
                None => None,
            },
            None => None,
        }
    } else if c == '[' {
        match skip_blank(chars, i + 1) {
            Some(j) => match read_items(chars, j) {
                Some((v, e)) => Some((Json::Array(v), e)),
                None => None,
            },
            None => None,
        }
    } else if c == '"' {
        match read_string(chars, i + 1) {
            Some((t, e)) => Some((Json::Text(t), e)),
            None => None,
        }
    } else if c == '-' || ('0' <= c && c <= '9') {
        match read_number(chars, i) {
            Some(e) => Some((Json::Number(from_chars(chars, i, e)), e)),
            None => None,
        }
    } else {
        read_word(chars, i)
    }
}

fn read_member(chars: &Vec<char>, i: usize) -> (r: Option<(String, Json, usize)>)
    requires
        i < chars.len(),
    ensures
        r is Some <==> member_at(chars@, i as int) is Some,
        r matches Some((n, v, m)) ==> member_at(chars@, i as int) == Some((n@, v@, m as int)) && i
            < m <= chars.len(),
    decreases chars.len() - i, 0int,
{
    match read_string(chars, i + 1) {
        Some((name, k)) => match skip_blank(chars, k) {
            Some(c) => {
                if !(c < chars.len() && chars[c] == ':') {
                    return None;
                }
                match skip_blank(chars, c + 1) {
                    Some(v) => match read_value(chars, v) {
                        Some((value, e)) => match skip_blank(chars, e) {
                            Some(m) => Some((name, value, m)),
                            None => None,
                        },
                        None => None,
                    },
                    None => None,
                }
            },
            None => None,
        },
        None => None,
    }
}

fn read_members(chars: &Vec<char>, from: usize) -> (r: Option<(Vec<(String, Json)>, usize)>)
    requires
        from <= chars.len(),
    ensures
        r is Some <==> members_at(chars@, from as int, Seq::empty()) is Some,
        r matches Some((m, e)) ==> members_at(chars@, from as int, Seq::empty()) == Some(
            (members_view(m@), e as int),
        ) && from < e <= chars.len(),
    decreases chars.len() - from, 1int,
{
    let mut out: Vec<(String, Json)> = Vec::new();
    let mut i: usize = from;
    assert(members_view(out@) =~= Seq::empty());
    while i < chars.len()
        invariant
            from <= i <= chars.len(),
            members_at(chars@, i as int, members_view(out@)) == members_at(
                chars@,
                from as int,
                Seq::empty(),
            ),
        decreases chars.len() - i,
    {
        if chars[i] == '}' {
            return Some((out, i + 1));
        }
        if chars[i] != '"' {
            return None;
        }
        match read_member(chars, i) {
            Some((name, value, m)) => {
                let ghost before = out@;
                out.push((name, value));
                assert(out@.drop_last() =~= before);
                if m >= chars.len() {
                    return None;
                }
                if chars[m] == '}' {
                    return Some((out, m + 1));
                }
                if chars[m] != ',' {
                    return None;
                }
                match skip_blank(chars, m + 1) {
                    Some(n) => {
                        i = n;
                    },
                    None => {
                        return None;
                    },
                }
            },
            None => {
                return None;
            },
        }
    }
    None
}

fn read_items(chars: &Vec<char>, from: usize) -> (r: Option<(Vec<Json>, usize)>)
    requires
        from <= chars.len(),
    ensures
        r is Some <==> items_at(chars@, from as int, Seq::empty()) is Some,
        r matches Some((v, e)) ==> items_at(chars@, from as int, Seq::empty()) == Some(
            (items_view(v@), e as int),
        ) && from < e <= chars.len(),
    decreases chars.len() - from, 1int,
{
    let mut out: Vec<Json> = Vec::new();
    let mut i: usize = from;
    assert(items_view(out@) =~= Seq::empty());
    while i < chars.len()
        invariant
            from <= i <= chars.len(),
            items_at(chars@, i as int, items_view(out@)) == items_at(
                chars@,
                from as int,
                Seq::empty(),
            ),
        decreases chars.len() - i,
    {
        if chars[i] == ']' {
            return Some((out, i + 1));
        }
        match read_value(chars, i) {
            Some((value, e)) => {
                let ghost before = out@;
                out.push(value);
                assert(out@.drop_last() =~= before);
                match skip_blank(chars, e) {
                    Some(m) => {
                        if m >= chars.len() {
                            return None;
                        }
                        if chars[m] == ']' {
                            return Some((out, m + 1));
                        }
                        if chars[m] != ',' {
                            return None;
                        }
                        match skip_blank(chars, m + 1) {
                            Some(n) => {
                                i = n;
                            },
                            None => {
                                return None;
                            },
                        }
                    },
                    None => {
                        return None;
                    },
                }
            },
            None => {
                return None;
            },
        }
    }
    None
}

/// Reads a document.
pub fn parse_jsonc_value(text: &str) -> (r: Result<Json, String>)
    ensures
        r is Ok <==> document(text@) is Some,
        r is Ok ==> document(text@) == Some(r->Ok_0@),
        r is Err ==> r->Err_0@ == "not valid JSON with comments"@,
{
    let chars = to_chars(text);
    match skip_blank(&chars, 0) {
        Some(i) => match read_value(&chars, i) {
            Some((v, e)) => match skip_blank(&chars, e) {
                Some(n) => {
                    if n == chars.len() {
                        return Ok(v);
                    }
                },
                None => {},
            },
            None => {},
        },
        None => {},
    }
    Err(owned("not valid JSON with comments"))
}

// ── Quoting ──────────────────────────────────────────────────────────
/// The lower case hexadecimal digit of a number below 16.
pub open spec fn hex_char(n: nat) -> char {
    if n < 10 {
        (48 + n) as char
    } else {
        (87 + n) as char
    }
}

/// A character as it stands inside a quoted text.
pub open spec fn quoted_char(c: char) -> Seq<char> {
    let n = c as nat;
    if c == '"' {
        seq!['\\', '"']
    } else if c == '\\' {
        seq!['\\', '\\']
    } else if n == 8 {
        seq!['\\', 'b']
    } else if n == 9 {
        seq!['\\', 't']
    } else if n == 10 {
        seq!['\\', 'n']
    } else if n == 12 {
        seq!['\\', 'f']
    } else if n == 13 {
        seq!['\\', 'r']
    } else if n < 32 {
        seq!['\\', 'u', '0', '0', hex_char(n / 16), hex_char(n % 16)]
    } else {
        seq![c]
    }
}

/// The text between the quotes of a quoted text.
pub open spec fn quoted_body(s: Seq<char>) -> Seq<char>
    decreases s.len(),
{
    if s.len() == 0 {
        Seq::empty()
    } else {
        quoted_char(s[0]) + quoted_body(s.drop_first())
    }
}

/// The JSON string literal of a text: quotes around it, quotes, backslashes
/// and control characters escaped.
pub open spec fn quoted(s: Seq<char>) -> Seq<char> {
    seq!['"'] + quoted_body(s) + seq!['"']
}

/// `serde_json::to_string` of a string slice is its JSON string literal. It
/// never fails on one.
#[verifier::external_body]
pub(crate) fn json_string(s: &str) -> (r: String)
    ensures
        r@ == quoted(s@),
{
    serde_json::to_string(s).unwrap_or_else(|_| "\"\"".to_string())
}

proof fn lemma_hex_char(n: nat)
    requires
        n < 16,
    ensures
        hex_value(hex_char(n)) == Some(n),
{
}

proof fn lemma_quoted_char_read(s: Seq<char>, i: int, c: char, read: Seq<char>)
    requires
        0 <= i,
        i + quoted_char(c).len() <= s.len(),
        s.subrange(i, i + quoted_char(c).len()) == quoted_char(c),
    ensures
        string_from(s, i, read) == string_from(s, i + quoted_char(c).len(), read.push(c)),
{
    let q = quoted_char(c);
    let w = s.subrange(i, i + q.len());
    let n = c as nat;
    assert(w[0] == s[i]);
    if q.len() == 2 {
        assert(w[1] == s[i + 1]);
        assert(short_escape(s[i + 1]) == Some(c));
    } else if q.len() == 6 {
        assert(w[1] == s[i + 1] && w[2] == s[i + 2] && w[3] == s[i + 3] && w[4] == s[i + 4] && w[5]
            == s[i + 5]);
        lemma_hex_char(n / 16);
        lemma_hex_char(n % 16);
        lemma_hex_char(0);
        assert(code_unit(s, i + 2) == Some(n));
        assert(n as char == c);
        assert(unicode_escape(s, i + 2) == Some((c, i + 6)));
    }
}

pub proof fn lemma_quoted_body_read(before: Seq<char>, t: Seq<char>, rest: Seq<char>, read: Seq<char>)
    ensures
        string_from(before + quoted_body(t) + seq!['"'] + rest, before.len() as int, read) == Some(
            (read + t, (before.len() + quoted_body(t).len() + 1) as int),
        ),
    decreases t.len(),
{
    let s = before + quoted_body(t) + seq!['"'] + rest;
    let i = before.len() as int;
    if t.len() == 0 {
        assert(s[i] == '"');
        assert(read + t =~= read);
    } else {
        let c = t[0];
        let q = quoted_char(c);
        let tail = t.drop_first();
        lemma_quoted_body_read(before + q, tail, rest, read.push(c));
        assert(s =~= (before + q) + quoted_body(tail) + seq!['"'] + rest);
        assert(read.push(c) + tail =~= read + t);
        assert(s.subrange(i, i + q.len()) =~= q);
        lemma_quoted_char_read(s, i, c, read);
    }
}

/// Reading a quoted text gives the text back, whatever follows it.
pub proof fn lemma_quoted_round_trip(t: Seq<char>, rest: Seq<char>)
    ensures
        value_at(quoted(t) + rest, 0) == Some((JsonView::Text(t), quoted(t).len() as int)),
{
    let s = quoted(t) + rest;
    lemma_quoted_body_read(seq!['"'], t, rest, Seq::empty());
    assert(s =~= seq!['"'] + quoted_body(t) + seq!['"'] + rest);
    assert(Seq::<char>::empty() + t =~= t);
}

proof fn lemma_quoted_body_end(before: Seq<char>, t: Seq<char>, rest: Seq<char>)
    ensures
        crate::locate::string_end(
            before + quoted_body(t) + seq!['"'] + rest,
            before.len() as int,
        ) == before.len() + quoted_body(t).len() + 1,
    decreases t.len(),
{
    let s = before + quoted_body(t) + seq!['"'] + rest;
    let i = before.len() as int;
    if t.len() == 0 {
        assert(s[i] == '"');
    } else {
        let q = quoted_char(t[0]);
        let tail = t.drop_first();
        lemma_quoted_body_end(before + q, tail, rest);
        assert(s =~= (before + q) + quoted_body(tail) + seq!['"'] + rest);
        assert(s[i] == q[0]);
        if q.len() > 1 {
            assert(s[i + 1] == q[1]);
        }
        if q.len() == 6 {
            assert(s[i + 2] == q[2] && s[i + 3] == q[3] && s[i + 4] == q[4] && s[i + 5] == q[5]);
            reveal_with_fuel(crate::locate::string_end, 6);
        }
    }
}

/// The pass over a text takes a quoted text as one token, whatever the text
/// holds: quotes, backslashes, brackets or comment marks.
pub proof fn lemma_quoted_is_one_token(t: Seq<char>, rest: Seq<char>)
    ensures
        crate::locate::string_end(quoted(t) + rest, 1) == quoted(t).len(),
{
    lemma_quoted_body_end(seq!['"'], t, rest);
    assert(quoted(t) + rest =~= seq!['"'] + quoted_body(t) + seq!['"'] + rest);
}

} // verus!
