//! Text as a sequence of characters: the string operations that the rest of
//! the crate is written with, each with its mathematical meaning.
use vstd::prelude::*;

verus! {

/// `String::push` appends one character.
pub assume_specification[ std::string::String::push ](s: &mut std::string::String, c: char)
    ensures
        final(s)@ == old(s)@.push(c),
;

/// `==` on two string slices compares their characters.
pub assume_specification[ <str as PartialEq<str>>::eq ](a: &str, b: &str) -> (r: bool)
    ensures
        r == (a@ == b@),
;

/// The meaning of an optional text.
pub open spec fn opt_text(o: Option<String>) -> Option<Seq<char>> {
    match o {
        Some(s) => Some(s@),
        None => None,
    }
}

/// The text, or the empty text where there is none.
pub open spec fn or_empty(o: Option<Seq<char>>) -> Seq<char> {
    match o {
        Some(s) => s,
        None => Seq::empty(),
    }
}

/// The meanings of a list of texts.
pub open spec fn texts(v: Seq<String>) -> Seq<Seq<char>> {
    Seq::new(v.len(), |i: int| v[i]@)
}

pub broadcast proof fn lemma_texts_push(v: Seq<String>, s: String)
    ensures
        #[trigger] texts(v.push(s)) == texts(v).push(s@),
{
    assert(texts(v.push(s)) =~= texts(v).push(s@));
}

/// Whether two texts are the same.
pub fn same(a: &str, b: &str) -> (r: bool)
    ensures
        r == (a@ == b@),
{
    *a == *b
}

/// An owned copy of a text.
pub fn owned(s: &str) -> (r: String)
    ensures
        r@ == s@,
{
    s.to_owned()
}

/// A copy of an optional text.
pub fn copy_opt(o: &Option<String>) -> (r: Option<String>)
    ensures
        opt_text(r) == opt_text(*o),
        r is Some <==> o is Some,
{
    match o {
        Some(s) => Some(owned(s.as_str())),
        None => None,
    }
}

/// The text, or the empty text where there is none.
pub fn text_or_empty(o: &Option<String>) -> (r: String)
    ensures
        r@ == or_empty(opt_text(*o)),
{
    match o {
        Some(s) => owned(s.as_str()),
        None => String::new(),
    }
}

/// A copy of a list of texts.
pub fn copy_texts(v: &Vec<String>) -> (r: Vec<String>)
    ensures
        texts(r@) == texts(v@),
{
    let mut out: Vec<String> = Vec::new();
    let mut i: usize = 0;
    while i < v.len()
        invariant
            i <= v.len(),
            texts(out@) == texts(v@).take(i as int),
        decreases v.len() - i,
    {
        broadcast use lemma_texts_push;

        out.push(owned(v[i].as_str()));
        assert(texts(v@).take(i + 1) == texts(v@).take(i as int).push(v@[i as int]@));
        i += 1;
    }
    assert(texts(v@).take(v@.len() as int) == texts(v@));
    out
}

/// Whether a list of texts holds a given text.
pub fn has_text(v: &[String], s: &str) -> (r: bool)
    ensures
        r == texts(v@).contains(s@),
{
    let mut i: usize = 0;
    while i < v.len()
        invariant
            i <= v.len(),
            forall|j: int| 0 <= j < i ==> v@[j]@ != s@,
        decreases v.len() - i,
    {
        if same(v[i].as_str(), s) {
            assert(texts(v@)[i as int] == s@);
            return true;
        }
        i += 1;
    }
    assert forall|j: int| 0 <= j < texts(v@).len() implies texts(v@)[j] != s@ by {}
    false
}

/// The characters of a text.
pub fn to_chars(text: &str) -> (v: Vec<char>)
    ensures
        v@ == text@,
{
    let mut v: Vec<char> = Vec::new();
    for c in it: text.chars()
        invariant
            v@ == text@.take(it.index()),
            it.seq() == text@,
    {
        v.push(c);
        assert(text@.take(it.index() + 1) == text@.take(it.index()).push(c));
    }
    assert(text@.take(text@.len() as int) == text@);
    v
}

/// The text made of `chars[from..to]`.
pub fn from_chars(chars: &Vec<char>, from: usize, to: usize) -> (r: String)
    requires
        from <= to <= chars.len(),
    ensures
        r@ == chars@.subrange(from as int, to as int),
{
    let mut out = String::new();
    let mut i: usize = from;
    assert(chars@.subrange(from as int, from as int) =~= Seq::empty());
    while i < to
        invariant
            from <= i <= to <= chars.len(),
            out@ == chars@.subrange(from as int, i as int),
        decreases to - i,
    {
        out.push(chars[i]);
        assert(chars@.subrange(from as int, i + 1) == chars@.subrange(from as int, i as int).push(
            chars@[i as int],
        ));
        i += 1;
    }
    out
}

/// Whether a text begins with another.
pub open spec fn begins_with(s: Seq<char>, part: Seq<char>) -> bool {
    part.len() <= s.len() && s.take(part.len() as int) == part
}

/// Whether a text ends with another.
pub open spec fn ends_with(s: Seq<char>, part: Seq<char>) -> bool {
    part.len() <= s.len() && s.skip(s.len() - part.len()) == part
}

// ── Joining ──────────────────────────────────────────────────────────
/// The parts one after the other, with `sep` between two of them.
pub open spec fn joined(parts: Seq<Seq<char>>, sep: Seq<char>) -> Seq<char>
    decreases parts.len(),
{
    if parts.len() == 0 {
        Seq::empty()
    } else if parts.len() == 1 {
        parts[0]
    } else {
        joined(parts.drop_last(), sep) + sep + parts.last()
    }
}

/// Nothing joined is nothing, and one part joined is that part.
pub proof fn lemma_joined_one(part: Seq<char>, sep: Seq<char>)
    ensures
        joined(Seq::empty(), sep) == Seq::<char>::empty(),
        joined(seq![part], sep) == part,
{
}

/// Parts that are joined in two goes are joined: the separator stands between
/// the two, and nothing is left out.
pub proof fn lemma_joined_together(a: Seq<Seq<char>>, b: Seq<Seq<char>>, sep: Seq<char>)
    requires
        a.len() > 0,
        b.len() > 0,
    ensures
        joined(a + b, sep) == joined(a, sep) + sep + joined(b, sep),
    decreases b.len(),
{
    let all = a + b;
    if b.len() == 1 {
        assert(all.drop_last() =~= a);
    } else {
        lemma_joined_together(a, b.drop_last(), sep);
        assert(all.drop_last() =~= a + b.drop_last());
        assert(joined(all, sep) =~= joined(a, sep) + sep + joined(b, sep));
    }
}

/// Joins texts with a separator.
pub fn join(parts: &Vec<String>, sep: &str) -> (r: String)
    ensures
        r@ == joined(texts(parts@), sep@),
{
    let mut out = String::new();
    let mut i: usize = 0;
    while i < parts.len()
        invariant
            i <= parts.len(),
            out@ == joined(texts(parts@).take(i as int), sep@),
        decreases parts.len() - i,
    {
        let ghost t = texts(parts@).take(i + 1);
        assert(t.drop_last() =~= texts(parts@).take(i as int));
        if i > 0 {
            out.append(sep);
        } else {
            assert(out@ =~= Seq::empty());
        }
        out.append(parts[i].as_str());
        assert(out@ =~= joined(t, sep@));
        i += 1;
    }
    assert(texts(parts@).take(parts@.len() as int) =~= texts(parts@));
    out
}

/// `n` spaces.
pub open spec fn spaces(n: nat) -> Seq<char> {
    Seq::new(n, |i: int| ' ')
}

/// A text of `n` spaces.
pub fn blank(n: usize) -> (r: String)
    ensures
        r@ == spaces(n as nat),
{
    let mut out = String::new();
    let mut i: usize = 0;
    assert(out@ =~= spaces(0));
    while i < n
        invariant
            i <= n,
            out@ == spaces(i as nat),
        decreases n - i,
    {
        out.push(' ');
        i += 1;
        assert(out@ =~= spaces(i as nat));
    }
    out
}

/// The number of bytes that the text takes in UTF-8.
pub open spec fn byte_len(s: Seq<char>) -> usize {
    vstd::utf8::encode_utf8(s).len() as usize
}

// ── Replacing ────────────────────────────────────────────────────────
/// Whether the pattern stands at `i`.
pub open spec fn stands_at(s: Seq<char>, pattern: Seq<char>, i: int) -> bool {
    i + pattern.len() <= s.len() && s.subrange(i, i + pattern.len()) == pattern
}

/// The text from `i` on with every occurrence of the pattern, from the left,
/// replaced.
pub open spec fn replaced_from(s: Seq<char>, pattern: Seq<char>, with: Seq<char>, i: int) -> Seq<
    char,
>
    decreases s.len() - i,
{
    if i < 0 || i >= s.len() {
        Seq::empty()
    } else if pattern.len() > 0 && stands_at(s, pattern, i) {
        with + replaced_from(s, pattern, with, i + pattern.len())
    } else {
        seq![s[i]] + replaced_from(s, pattern, with, i + 1)
    }
}

/// The text with every occurrence of the pattern replaced.
pub open spec fn replaced(s: Seq<char>, pattern: Seq<char>, with: Seq<char>) -> Seq<char> {
    replaced_from(s, pattern, with, 0)
}

/// Whether a pattern stands nowhere before `n`.
pub open spec fn nowhere_before(s: Seq<char>, pattern: Seq<char>, n: int) -> bool {
    forall|i: int| 0 <= i < n ==> !stands_at(s, pattern, i)
}

proof fn lemma_replaced_up_to(s: Seq<char>, pattern: Seq<char>, with: Seq<char>, i: int, n: int)
    requires
        0 <= i <= n <= s.len(),
        nowhere_before(s, pattern, n),
    ensures
        replaced_from(s, pattern, with, i) == s.subrange(i, n) + replaced_from(s, pattern, with, n),
    decreases n - i,
{
    if i < n {
        lemma_replaced_up_to(s, pattern, with, i + 1, n);
        assert(s.subrange(i, n) =~= seq![s[i]] + s.subrange(i + 1, n));
        assert(replaced_from(s, pattern, with, i) =~= s.subrange(i, n) + replaced_from(
            s,
            pattern,
            with,
            n,
        ));
    } else {
        assert(s.subrange(i, n) + replaced_from(s, pattern, with, n) =~= replaced_from(
            s,
            pattern,
            with,
            n,
        ));
    }
}

proof fn lemma_replaced_behind(
    s: Seq<char>,
    front: Seq<char>,
    pattern: Seq<char>,
    with: Seq<char>,
    i: int,
)
    requires
        0 <= i,
    ensures
        replaced_from(front + s, pattern, with, front.len() + i) == replaced_from(
            s,
            pattern,
            with,
            i,
        ),
    decreases s.len() - i,
{
    let all = front + s;
    let n = front.len() + i;
    if i < s.len() {
        assert(all[n] == s[i]);
        if n + pattern.len() <= all.len() {
            assert(all.subrange(n, n + pattern.len()) =~= s.subrange(i, i + pattern.len()));
        }
        if pattern.len() > 0 && stands_at(s, pattern, i) {
            lemma_replaced_behind(s, front, pattern, with, i + pattern.len());
        } else {
            lemma_replaced_behind(s, front, pattern, with, i + 1);
        }
    }
}

/// A text in which the pattern does not stand is left as it is.
pub proof fn lemma_nothing_to_replace(s: Seq<char>, pattern: Seq<char>, with: Seq<char>)
    requires
        nowhere_before(s, pattern, s.len() as int),
    ensures
        replaced(s, pattern, with) == s,
{
    lemma_replaced_up_to(s, pattern, with, 0, s.len() as int);
    assert(s.subrange(0, s.len() as int) + Seq::<char>::empty() =~= s);
}

/// Where the pattern first stands the other text stands afterwards; what is
/// before it stays, and what is behind it is dealt with in the same way.
pub proof fn lemma_first_is_replaced(
    before: Seq<char>,
    pattern: Seq<char>,
    behind: Seq<char>,
    with: Seq<char>,
)
    requires
        pattern.len() > 0,
        nowhere_before(before + pattern + behind, pattern, before.len() as int),
    ensures
        replaced(before + pattern + behind, pattern, with) == before + with + replaced(
            behind,
            pattern,
            with,
        ),
{
    let s = before + pattern + behind;
    let n = before.len() as int;
    lemma_replaced_up_to(s, pattern, with, 0, n);
    assert(s.subrange(n, n + pattern.len()) =~= pattern);
    assert(s.subrange(0, n) =~= before);
    assert(s =~= (before + pattern) + behind);
    lemma_replaced_behind(behind, before + pattern, pattern, with, 0);
    assert(replaced(s, pattern, with) =~= before + with + replaced(behind, pattern, with));
}

/// Replaces every occurrence of a pattern that is not empty.
pub fn replace_all(text: &str, pattern: &str, with: &str) -> (r: String)
    requires
        pattern@.len() > 0,
    ensures
        r@ == replaced(text@, pattern@, with@),
{
    let s = to_chars(text);
    let p = to_chars(pattern);
    let mut out = String::new();
    let mut i: usize = 0;
    assert(out@ + replaced_from(s@, p@, with@, 0) =~= replaced(s@, p@, with@));
    while i < s.len()
        invariant
            i <= s@.len(),
            p@.len() > 0,
            out@ + replaced_from(s@, p@, with@, i as int) == replaced(s@, p@, with@),
        decreases s@.len() - i,
    {
        let ghost before = out@;
        let mut k: usize = 0;
        while k < p.len() && k < s.len() - i && s[i + k] == p[k]
            invariant
                i < s@.len(),
                k <= p@.len(),
                k <= s@.len() - i,
                forall|j: int| 0 <= j < k ==> s@[i + j] == p@[j],
            decreases p@.len() - k,
        {
            k += 1;
        }
        if k == p.len() {
            assert(s@.subrange(i as int, i + p@.len()) =~= p@);
            out.append(with);
            assert(before + (with@ + replaced_from(s@, p@, with@, i + p@.len())) =~= out@
                + replaced_from(s@, p@, with@, i + p@.len()));
            i += k;
        } else {
            assert(!stands_at(s@, p@, i as int)) by {
                if stands_at(s@, p@, i as int) {
                    assert(s@.subrange(i as int, i + p@.len())[k as int] == s@[i + k]);
                }
            }
            out.push(s[i]);
            assert(before + (seq![s@[i as int]] + replaced_from(s@, p@, with@, i + 1)) =~= out@
                + replaced_from(s@, p@, with@, i + 1));
            i += 1;
        }
    }
    assert(out@ + replaced_from(s@, p@, with@, i as int) =~= out@);
    out
}

// ── White space ──────────────────────────────────────────────────────
/// The characters with the Unicode property White_Space.
pub open spec fn is_space(c: char) -> bool {
    let n = c as u32;
    ||| 0x09 <= n <= 0x0d
    ||| n == 0x20
    ||| n == 0x85
    ||| n == 0xa0
    ||| n == 0x1680
    ||| 0x2000 <= n <= 0x200a
    ||| n == 0x2028
    ||| n == 0x2029
    ||| n == 0x202f
    ||| n == 0x205f
    ||| n == 0x3000
}

/// Whether the character is white space.
pub fn space(c: char) -> (r: bool)
    ensures
        r == is_space(c),
{
    let n: u32 = c as u32;
    (0x09 <= n && n <= 0x0d) || n == 0x20 || n == 0x85 || n == 0xa0 || n == 0x1680 || (0x2000 <= n
        && n <= 0x200a) || n == 0x2028 || n == 0x2029 || n == 0x202f || n == 0x205f || n == 0x3000
}

/// Without the white space in front.
pub open spec fn trim_front(s: Seq<char>) -> Seq<char>
    decreases s.len(),
{
    if s.len() > 0 && is_space(s[0]) {
        trim_front(s.drop_first())
    } else {
        s
    }
}

/// Without the white space at the end.
pub open spec fn trim_back(s: Seq<char>) -> Seq<char>
    decreases s.len(),
{
    if s.len() > 0 && is_space(s.last()) {
        trim_back(s.drop_last())
    } else {
        s
    }
}

/// Without the white space at either end.
pub open spec fn trimmed(s: Seq<char>) -> Seq<char> {
    trim_back(trim_front(s))
}

proof fn lemma_trim_front_skip(s: Seq<char>, i: int)
    requires
        0 <= i <= s.len(),
        forall|j: int| 0 <= j < i ==> is_space(s[j]),
    ensures
        trim_front(s) == trim_front(s.skip(i)),
    decreases i,
{
    if i > 0 {
        lemma_trim_front_skip(s.drop_first(), i - 1);
        assert(s.drop_first().skip(i - 1) =~= s.skip(i));
    } else {
        assert(s.skip(0) =~= s);
    }
}

proof fn lemma_trim_back_take(s: Seq<char>, k: int)
    requires
        0 <= k <= s.len(),
        forall|j: int| k <= j < s.len() ==> is_space(s[j]),
    ensures
        trim_back(s) == trim_back(s.take(k)),
    decreases s.len() - k,
{
    if k < s.len() {
        lemma_trim_back_take(s.drop_last(), k);
        assert(s.drop_last().take(k) =~= s.take(k));
    } else {
        assert(s.take(k) =~= s);
    }
}

/// The text without the white space at either end.
pub fn trim<'a>(s: &'a str) -> (r: &'a str)
    ensures
        r@ == trimmed(s@),
{
    let chars = to_chars(s);
    let mut i: usize = 0;
    while i < chars.len() && space(chars[i])
        invariant
            i <= chars.len(),
            chars@ == s@,
            forall|j: int| 0 <= j < i ==> is_space(s@[j]),
        decreases chars.len() - i,
    {
        i += 1;
    }
    let mut k: usize = chars.len();
    while k > i && space(chars[k - 1])
        invariant
            i <= k <= chars.len(),
            chars@ == s@,
            forall|j: int| k <= j < s@.len() ==> is_space(s@[j]),
        decreases k,
    {
        k -= 1;
    }
    proof {
        lemma_trim_front_skip(s@, i as int);
        let f = s@.skip(i as int);
        assert(trim_front(f) == f);
        lemma_trim_back_take(f, k - i);
        let m = f.take(k - i);
        assert(m =~= s@.subrange(i as int, k as int));
        assert(trim_back(m) == m);
    }
    s.substring_char(i, k)
}

/// Trimming twice is trimming once.
pub proof fn lemma_trimmed_idempotent(s: Seq<char>)
    ensures
        trimmed(trimmed(s)) == trimmed(s),
{
    lemma_trim_front_shape(s);
    let f = trim_front(s);
    lemma_trim_back_shape(f);
    let t = trim_back(f);
    if t.len() > 0 {
        assert(t[0] == f[0]);
    }
}

proof fn lemma_trim_front_shape(s: Seq<char>)
    ensures
        trim_front(s).len() > 0 ==> !is_space(trim_front(s)[0]),
    decreases s.len(),
{
    if s.len() > 0 && is_space(s[0]) {
        lemma_trim_front_shape(s.drop_first());
    }
}

proof fn lemma_trim_back_shape(s: Seq<char>)
    ensures
        trim_back(s).len() <= s.len(),
        trim_back(s) == s.take(trim_back(s).len() as int),
        trim_back(s).len() > 0 ==> !is_space(trim_back(s).last()),
    decreases s.len(),
{
    if s.len() > 0 && is_space(s.last()) {
        lemma_trim_back_shape(s.drop_last());
        assert(s.drop_last().take(trim_back(s).len() as int) =~= s.take(trim_back(s).len() as int));
    } else {
        assert(s.take(s.len() as int) =~= s);
    }
}

} // verus!
