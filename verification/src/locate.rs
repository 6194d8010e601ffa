//! Locating values, member keys and containers in JSONC text.
//!
//! One pass over the text records where each value, each member key and each
//! bracket stands, by its path from the root. The pass knows strings and
//! comments; it does not check the grammar.
use crate::text::{from_chars, owned, same, to_chars};
use vstd::prelude::*;
use vstd::utf8::{encode_scalar, encode_utf8};

verus! {

/// `char::from_u32` gives the character with the given code, and nothing for
/// a number that is no Unicode scalar value.
pub assume_specification[ char::from_u32 ](i: u32) -> (r: Option<char>)
    ensures
        r == (if i <= 0xd7ff || 0xe000 <= i <= 0x10ffff {
            Some(i as char)
        } else {
            None
        }),
;

/// One step of a path: a member of an object or an element of an array.
#[derive(Clone, Debug, PartialEq, Eq, Hash)]
pub enum PathSeg {
    Key(String),
    Index(usize),
}

/// The meaning of a [`PathSeg`].
pub enum SegView {
    Key(Seq<char>),
    Index(nat),
}

impl View for PathSeg {
    type V = SegView;

    open spec fn view(&self) -> SegView {
        match self {
            PathSeg::Key(s) => SegView::Key(s@),
            PathSeg::Index(n) => SegView::Index(*n as nat),
        }
    }
}

/// The meaning of a path.
pub open spec fn path_view(p: Seq<PathSeg>) -> Seq<SegView> {
    Seq::new(p.len(), |i: int| p[i]@)
}

/// A copy of a path.
pub fn copy_path(p: &[PathSeg]) -> (r: Vec<PathSeg>)
    ensures
        path_view(r@) == path_view(p@),
        r@.len() == p@.len(),
{
    let mut out: Vec<PathSeg> = Vec::new();
    let mut i: usize = 0;
    while i < p.len()
        invariant
            i <= p.len(),
            out@.len() == i,
            forall|j: int| 0 <= j < i ==> #[trigger] out@[j]@ == p@[j]@,
        decreases p.len() - i,
    {
        let seg = match &p[i] {
            PathSeg::Key(s) => PathSeg::Key(owned(s.as_str())),
            PathSeg::Index(n) => PathSeg::Index(*n),
        };
        out.push(seg);
        i += 1;
    }
    assert(path_view(out@) =~= path_view(p@));
    out
}

/// Whether two path steps are the same.
pub fn same_seg(a: &PathSeg, b: &PathSeg) -> (r: bool)
    ensures
        r == (a@ == b@),
{
    match (a, b) {
        (PathSeg::Key(x), PathSeg::Key(y)) => same(x.as_str(), y.as_str()),
        (PathSeg::Index(m), PathSeg::Index(n)) => *m == *n,
        _ => false,
    }
}

/// Whether two paths are the same.
pub fn same_path(a: &[PathSeg], b: &[PathSeg]) -> (r: bool)
    ensures
        r == (path_view(a@) == path_view(b@)),
{
    if a.len() != b.len() {
        assert(path_view(a@).len() != path_view(b@).len());
        return false;
    }
    let mut i: usize = 0;
    while i < a.len()
        invariant
            i <= a.len(),
            a@.len() == b@.len(),
            forall|j: int| 0 <= j < i ==> #[trigger] a@[j]@ == b@[j]@,
        decreases a.len() - i,
    {
        if !same_seg(&a[i], &b[i]) {
            assert(path_view(a@)[i as int] != path_view(b@)[i as int]);
            return false;
        }
        i += 1;
    }
    assert(path_view(a@) =~= path_view(b@));
    true
}

/// The path with a member key behind it.
pub fn key_path(p: &[PathSeg], key: &str) -> (r: Vec<PathSeg>)
    ensures
        path_view(r@) == path_view(p@).push(SegView::Key(key@)),
{
    let mut out = copy_path(p);
    out.push(PathSeg::Key(owned(key)));
    assert(path_view(out@) =~= path_view(p@).push(SegView::Key(key@)));
    out
}

/// The path with an array index behind it.
pub fn index_path(p: &[PathSeg], n: usize) -> (r: Vec<PathSeg>)
    ensures
        path_view(r@) == path_view(p@).push(SegView::Index(n as nat)),
{
    let mut out = copy_path(p);
    out.push(PathSeg::Index(n));
    assert(path_view(out@) =~= path_view(p@).push(SegView::Index(n as nat)));
    out
}

// ── What one pass records ────────────────────────────────────────────
/// Where things stand in a text.
#[derive(Debug)]
pub struct Spans {
    /// Scalar values (start, end) by path; strings with their quotes.
    pub values: Vec<(Vec<PathSeg>, (usize, usize))>,
    /// Member keys (name, start, end) by the path of the object around them.
    pub keys: Vec<(Vec<PathSeg>, String, (usize, usize))>,
    /// Opening brackets by the path of the container.
    pub opens: Vec<(Vec<PathSeg>, usize)>,
    /// Closing brackets by the path of the container.
    pub closes: Vec<(Vec<PathSeg>, usize)>,
}

/// The meaning of [`Spans`].
#[verifier::ext_equal]
pub struct SpansView {
    pub values: Seq<(Seq<SegView>, int, int)>,
    pub keys: Seq<(Seq<SegView>, Seq<char>, int, int)>,
    pub opens: Seq<(Seq<SegView>, int)>,
    pub closes: Seq<(Seq<SegView>, int)>,
}

impl View for Spans {
    type V = SpansView;

    open spec fn view(&self) -> SpansView {
        SpansView {
            values: Seq::new(
                self.values@.len(),
                |i: int|
                    (
                        path_view(self.values@[i].0@),
                        self.values@[i].1.0 as int,
                        self.values@[i].1.1 as int,
                    ),
            ),
            keys: Seq::new(
                self.keys@.len(),
                |i: int|
                    (
                        path_view(self.keys@[i].0@),
                        self.keys@[i].1@,
                        self.keys@[i].2.0 as int,
                        self.keys@[i].2.1 as int,
                    ),
            ),
            opens: Seq::new(
                self.opens@.len(),
                |i: int| (path_view(self.opens@[i].0@), self.opens@[i].1 as int),
            ),
            closes: Seq::new(
                self.closes@.len(),
                |i: int| (path_view(self.closes@[i].0@), self.closes@[i].1 as int),
            ),
        }
    }
}

/// An open container during the pass.
struct Frame {
    path: Vec<PathSeg>,
    array: bool,
    /// The member key that waits for its value.
    pending: Option<String>,
    /// The number of elements of an array that have ended.
    count: usize,
}

/// The meaning of an open container.
#[verifier::ext_equal]
pub struct FrameView {
    pub path: Seq<SegView>,
    pub array: bool,
    pub pending: Option<Seq<char>>,
    pub count: nat,
}

impl View for Frame {
    type V = FrameView;

    closed spec fn view(&self) -> FrameView {
        FrameView {
            path: path_view(self.path@),
            array: self.array,
            pending: crate::text::opt_text(self.pending),
            count: self.count as nat,
        }
    }
}

/// The state of the pass: what was recorded and which containers are open,
/// the innermost last.
#[verifier::ext_equal]
pub struct ScanView {
    pub spans: SpansView,
    pub stack: Seq<FrameView>,
}

struct Scan {
    spans: Spans,
    stack: Vec<Frame>,
}

spec fn frames(v: Seq<Frame>) -> Seq<FrameView> {
    Seq::new(v.len(), |i: int| v[i]@)
}

impl View for Scan {
    type V = ScanView;

    closed spec fn view(&self) -> ScanView {
        ScanView { spans: self.spans@, stack: frames(self.stack@) }
    }
}

/// The innermost container with one more element, where it is an array.
pub open spec fn counted(top: FrameView) -> FrameView {
    if top.array {
        FrameView { count: top.count + 1, ..top }
    } else {
        top
    }
}

/// The path of the value that comes next in a container.
pub open spec fn child_path(top: FrameView) -> Seq<SegView> {
    if top.array {
        top.path.push(SegView::Index(top.count))
    } else {
        top.path.push(
            SegView::Key(
                match top.pending {
                    Some(k) => k,
                    None => Seq::empty(),
                },
            ),
        )
    }
}

/// An opening bracket: a container begins and takes the pending key.
pub open spec fn after_open(st: ScanView, pos: int, array: bool) -> ScanView {
    let path = if st.stack.len() == 0 {
        Seq::empty()
    } else {
        child_path(st.stack.last())
    };
    let below = if st.stack.len() == 0 {
        st.stack
    } else if st.stack.last().array {
        st.stack
    } else {
        st.stack.drop_last().push(FrameView { pending: None, ..st.stack.last() })
    };
    ScanView {
        spans: SpansView { opens: st.spans.opens.push((path, pos)), ..st.spans },
        stack: below.push(FrameView { path, array, pending: None, count: 0 }),
    }
}

/// A closing bracket: the innermost container ends, and counts as an element
/// of an array around it.
pub open spec fn after_close(st: ScanView, pos: int) -> ScanView {
    if st.stack.len() == 0 {
        st
    } else {
        let spans = SpansView {
            closes: st.spans.closes.push((st.stack.last().path, pos)),
            ..st.spans
        };
        let rest = st.stack.drop_last();
        ScanView {
            spans,
            stack: if rest.len() == 0 {
                rest
            } else {
                rest.drop_last().push(counted(rest.last()))
            },
        }
    }
}

/// A scalar value from `start` to `end`. In an object without a pending key
/// it is passed over.
pub open spec fn after_scalar(st: ScanView, start: int, end: int) -> ScanView {
    if st.stack.len() == 0 || (!st.stack.last().array && st.stack.last().pending is None) {
        st
    } else {
        let top = st.stack.last();
        ScanView {
            spans: SpansView {
                values: st.spans.values.push((child_path(top), start, end)),
                ..st.spans
            },
            stack: st.stack.drop_last().push(FrameView { pending: None, ..counted(top) }),
        }
    }
}

/// A string from `start` to `end` that spells `inner`: a member key where an
/// object waits for one, and a value elsewhere.
pub open spec fn after_string(st: ScanView, start: int, end: int, inner: Seq<char>) -> ScanView {
    if st.stack.len() > 0 && !st.stack.last().array && st.stack.last().pending is None {
        let top = st.stack.last();
        ScanView {
            spans: SpansView {
                keys: st.spans.keys.push((top.path, inner, start, end)),
                ..st.spans
            },
            stack: st.stack.drop_last().push(FrameView { pending: Some(inner), ..top }),
        }
    } else {
        after_scalar(st, start, end)
    }
}

proof fn lemma_frames_push(v: Seq<Frame>, f: Frame)
    ensures
        frames(v.push(f)) == frames(v).push(f@),
{
    assert(frames(v.push(f)) =~= frames(v).push(f@));
}

proof fn lemma_frames_pop(v: Seq<Frame>)
    requires
        v.len() > 0,
    ensures
        frames(v.drop_last()) == frames(v).drop_last(),
        frames(v).last() == v.last()@,
        frames(v).len() == v.len(),
{
    assert(frames(v.drop_last()) =~= frames(v).drop_last());
}

impl Scan {
    spec fn bounded(&self, n: int) -> bool {
        forall|i: int| 0 <= i < self.stack@.len() ==> (#[trigger] self.stack@[i]).count <= n
    }

    fn open(&mut self, pos: usize, array: bool)
        requires
            old(self).bounded(pos as int),
        ensures
            final(self)@ == after_open(old(self)@, pos as int, array),
            final(self).bounded(pos as int),
    {
        let ghost before = *self;
        let path: Vec<PathSeg> = match self.stack.pop() {
            None => {
                assert(frames(before.stack@) =~= Seq::empty());
                Vec::new()
            },
            Some(mut top) => {
                proof {
                    lemma_frames_pop(before.stack@);
                    assert(before.stack@[before.stack@.len() - 1].count <= pos);
                }
                let path = if top.array {
                    index_path(top.path.as_slice(), top.count)
                } else {
                    match top.pending.take() {
                        Some(k) => key_path(top.path.as_slice(), k.as_str()),
                        None => {
                            let empty = String::new();
                            key_path(top.path.as_slice(), empty.as_str())
                        },
                    }
                };
                let ghost rest = self.stack@;
                self.stack.push(top);
                proof {
                    lemma_frames_push(rest, top);
                    if top.array {
                        assert(frames(self.stack@) =~= before@.stack);
                    }
                }
                path
            },
        };
        let ghost mid = *self;
        assert(path_view(path@) =~= (if before@.stack.len() == 0 {
            Seq::empty()
        } else {
            child_path(before@.stack.last())
        }));
        self.spans.opens.push((copy_path(path.as_slice()), pos));
        let frame = Frame { path, array, pending: None, count: 0 };
        self.stack.push(frame);
        proof {
            lemma_frames_push(mid.stack@, frame);
            assert(self@.spans.opens =~= after_open(before@, pos as int, array).spans.opens);
            assert(self@ =~= after_open(before@, pos as int, array));
        }
    }

    fn close(&mut self, pos: usize)
        requires
            old(self).bounded(pos as int),
            pos < usize::MAX,
        ensures
            final(self)@ == after_close(old(self)@, pos as int),
            final(self).bounded(pos + 1),
    {
        let ghost before = *self;
        match self.stack.pop() {
            None => {},
            Some(frame) => {
                proof {
                    lemma_frames_pop(before.stack@);
                }
                self.spans.closes.push((frame.path, pos));
                let ghost rest = self.stack@;
                match self.stack.pop() {
                    None => {
                        assert(frames(self.stack@) =~= Seq::empty());
                    },
                    Some(mut top) => {
                        proof {
                            lemma_frames_pop(rest);
                            assert(before.stack@[before.stack@.len() - 2].count <= pos);
                        }
                        if top.array {
                            top.count = top.count + 1;
                        }
                        let ghost low = self.stack@;
                        self.stack.push(top);
                        proof {
                            lemma_frames_push(low, top);
                        }
                    },
                }
                assert(self@.spans.closes =~= after_close(before@, pos as int).spans.closes);
                assert(self@ =~= after_close(before@, pos as int));
            },
        }
    }

    fn scalar(&mut self, start: usize, end: usize)
        requires
            old(self).bounded(start as int),
            start < end,
        ensures
            final(self)@ == after_scalar(old(self)@, start as int, end as int),
            final(self).bounded(end as int),
    {
        let ghost before = *self;
        match self.stack.pop() {
            None => {},
            Some(mut top) => {
                proof {
                    lemma_frames_pop(before.stack@);
                    assert(before.stack@[before.stack@.len() - 1].count <= start);
                }
                if top.array {
                    let path = index_path(top.path.as_slice(), top.count);
                    self.spans.values.push((path, (start, end)));
                    top.count = top.count + 1;
                    top.pending = None;
                } else {
                    match top.pending.take() {
                        Some(k) => {
                            let path = key_path(top.path.as_slice(), k.as_str());
                            self.spans.values.push((path, (start, end)));
                        },
                        None => {},
                    }
                }
                let ghost low = self.stack@;
                self.stack.push(top);
                proof {
                    lemma_frames_push(low, top);
                    let after = after_scalar(before@, start as int, end as int);
                    assert(self@.spans.values =~= after.spans.values);
                    assert(self@.stack =~= after.stack);
                    assert(self@ =~= after);
                }
            },
        }
    }

    fn string(&mut self, start: usize, end: usize, inner: String)
        requires
            old(self).bounded(start as int),
            start < end,
        ensures
            final(self)@ == after_string(old(self)@, start as int, end as int, inner@),
            final(self).bounded(end as int),
    {
        let ghost before = *self;
        let n: usize = self.stack.len();
        let is_key = if n == 0 {
            false
        } else {
            proof {
                lemma_frames_pop(self.stack@);
            }
            !self.stack[n - 1].array && self.stack[n - 1].pending.is_none()
        };
        if !is_key {
            self.scalar(start, end);
            return;
        }
        match self.stack.pop() {
            None => {},
            Some(mut top) => {
                let path = copy_path(top.path.as_slice());
                self.spans.keys.push((path, owned(inner.as_str()), (start, end)));
                top.pending = Some(inner);
                let ghost low = self.stack@;
                self.stack.push(top);
                proof {
                    lemma_frames_push(low, top);
                    let after = after_string(before@, start as int, end as int, inner@);
                    assert(self@.spans.keys =~= after.spans.keys);
                    assert(self@ =~= after);
                }
            },
        }
    }
}

// ── Tokens ───────────────────────────────────────────────────────────
/// The first line break at or after `i`, or the end of the text.
pub open spec fn line_end(s: Seq<char>, i: int) -> int
    decreases s.len() - i,
{
    if i >= s.len() {
        s.len() as int
    } else if s[i] == '\n' {
        i
    } else {
        line_end(s, i + 1)
    }
}

/// The position behind the first `*/` at or after `i`, or the end.
pub open spec fn block_end(s: Seq<char>, i: int) -> int
    decreases s.len() - i,
{
    if i + 1 >= s.len() {
        s.len() as int
    } else if s[i] == '*' && s[i + 1] == '/' {
        i + 2
    } else {
        block_end(s, i + 1)
    }
}

/// The position behind the quote that ends a string whose content starts at
/// `i`, or the end of the text. A backslash takes the next character along.
pub open spec fn string_end(s: Seq<char>, i: int) -> int
    decreases s.len() - i,
{
    if i >= s.len() {
        s.len() as int
    } else if s[i] == '\\' {
        if i + 1 >= s.len() {
            s.len() as int
        } else {
            string_end(s, i + 2)
        }
    } else if s[i] == '"' {
        i + 1
    } else {
        string_end(s, i + 1)
    }
}

/// The characters that a number may hold.
pub open spec fn is_number_char(c: char) -> bool {
    '0' <= c <= '9' || c == '-' || c == '+' || c == '.' || c == 'e' || c == 'E'
}

/// The first position at or after `i` that no number can hold.
pub open spec fn number_end(s: Seq<char>, i: int) -> int
    decreases s.len() - i,
{
    if 0 <= i < s.len() && is_number_char(s[i]) {
        number_end(s, i + 1)
    } else {
        i
    }
}

/// Whether the word stands at `i`.
pub open spec fn word_at(s: Seq<char>, i: int, w: Seq<char>) -> bool {
    i + w.len() <= s.len() && s.subrange(i, i + w.len()) == w
}

/// The position behind `true`, `false` or `null` at `i`, where one of them
/// stands there.
pub open spec fn word_end(s: Seq<char>, i: int) -> Option<int> {
    if word_at(s, i, seq!['t', 'r', 'u', 'e']) {
        Some(i + 4)
    } else if word_at(s, i, seq!['f', 'a', 'l', 's', 'e']) {
        Some(i + 5)
    } else if word_at(s, i, seq!['n', 'u', 'l', 'l']) {
        Some(i + 4)
    } else {
        None
    }
}

/// The value of a hexadecimal digit.
pub open spec fn hex_value(c: char) -> Option<nat> {
    if '0' <= c <= '9' {
        Some((c as nat - 48) as nat)
    } else if 'a' <= c <= 'f' {
        Some((c as nat - 87) as nat)
    } else if 'A' <= c <= 'F' {
        Some((c as nat - 55) as nat)
    } else {
        None
    }
}

/// The number that hexadecimal digits spell, given that of the digits before.
pub open spec fn hex_number(s: Seq<char>, before: nat) -> Option<nat>
    decreases s.len(),
{
    if s.len() == 0 {
        Some(before)
    } else {
        match hex_value(s[0]) {
            Some(d) => hex_number(s.drop_first(), before * 16 + d),
            None => None,
        }
    }
}

/// The number that the four characters of a `\u` escape spell. A plus sign
/// may stand for the first of them.
pub open spec fn hex4(s: Seq<char>) -> Option<nat> {
    if s[0] == '+' {
        hex_number(s.drop_first(), 0)
    } else {
        hex_number(s, 0)
    }
}

/// A character outside ASCII is read byte by byte, each byte of its UTF-8
/// form as one character. Member keys are taken to be ASCII.
pub open spec fn bytewise(c: char) -> Seq<char> {
    if (c as u32) < 0x80 {
        seq![c]
    } else {
        Seq::new(encode_scalar(c as u32).len(), |i: int| encode_scalar(c as u32)[i] as char)
    }
}

/// What a backslash and the character behind it stand for.
pub open spec fn escape_meaning(c: char) -> Seq<char> {
    if c == 'n' {
        seq!['\n']
    } else if c == 'r' {
        seq!['\r']
    } else if c == 't' {
        seq!['\t']
    } else {
        bytewise(c)
    }
}

/// The character of a code, or nothing where the code is no scalar value.
pub open spec fn scalar_text(code: nat) -> Seq<char> {
    if code <= 0xd7ff || 0xe000 <= code <= 0x10ffff {
        seq![code as char]
    } else {
        Seq::empty()
    }
}

/// What the content of a string spells, from `i` on.
pub open spec fn unescaped_from(s: Seq<char>, i: int) -> Seq<char>
    decreases s.len() - i,
{
    if i >= s.len() {
        Seq::empty()
    } else if s[i] == '\\' && i + 1 < s.len() {
        if s[i + 1] == 'u' && i + 5 < s.len() && hex4(s.subrange(i + 2, i + 6)) is Some {
            scalar_text(hex4(s.subrange(i + 2, i + 6))->0) + unescaped_from(s, i + 6)
        } else {
            escape_meaning(s[i + 1]) + unescaped_from(s, i + 2)
        }
    } else {
        bytewise(s[i]) + unescaped_from(s, i + 1)
    }
}

/// What the content of a string spells.
pub open spec fn unescaped(s: Seq<char>) -> Seq<char> {
    unescaped_from(s, 0)
}

/// The first line break at or after `from`, or the end of the text.
pub fn find_line_end(chars: &Vec<char>, from: usize) -> (r: usize)
    requires
        from <= chars.len(),
    ensures
        r == line_end(chars@, from as int),
        from <= r <= chars.len(),
{
    let mut i: usize = from;
    while i < chars.len() && chars[i] != '\n'
        invariant
            from <= i <= chars.len(),
            line_end(chars@, i as int) == line_end(chars@, from as int),
        decreases chars.len() - i,
    {
        i += 1;
    }
    i
}

/// The position behind the first `*/` at or after `from`, or the end.
pub fn find_block_end(chars: &Vec<char>, from: usize) -> (r: usize)
    requires
        from <= chars.len(),
    ensures
        r == block_end(chars@, from as int),
        from <= r <= chars.len(),
{
    let mut i: usize = from;
    while i < chars.len() && chars.len() - i > 1 && !(chars[i] == '*' && chars[i + 1] == '/')
        invariant
            from <= i <= chars.len(),
            block_end(chars@, i as int) == block_end(chars@, from as int),
        decreases chars.len() - i,
    {
        i += 1;
    }
    if chars.len() - i > 1 {
        i + 2
    } else {
        chars.len()
    }
}

/// The position behind the quote that ends a string whose content starts at
/// `from`, or the end.
pub fn find_string_end(chars: &Vec<char>, from: usize) -> (r: usize)
    requires
        from <= chars.len(),
    ensures
        r == string_end(chars@, from as int),
        from <= r <= chars.len(),
{
    let mut i: usize = from;
    while i < chars.len()
        invariant
            from <= i <= chars.len(),
            string_end(chars@, i as int) == string_end(chars@, from as int),
        decreases chars.len() - i,
    {
        if chars[i] == '\\' {
            if chars.len() - i < 2 {
                return chars.len();
            }
            i += 2;
        } else if chars[i] == '"' {
            return i + 1;
        } else {
            i += 1;
        }
    }
    i
}

/// Whether a number may hold the character.
fn is_number_byte(c: char) -> (r: bool)
    ensures
        r == is_number_char(c),
{
    ('0' <= c && c <= '9') || c == '-' || c == '+' || c == '.' || c == 'e' || c == 'E'
}

fn find_number_end(chars: &Vec<char>, from: usize) -> (r: usize)
    requires
        from <= chars.len(),
    ensures
        r == number_end(chars@, from as int),
        from <= r <= chars.len(),
        from < chars.len() && is_number_char(chars@[from as int]) ==> from < r,
{
    let mut i: usize = from;
    while i < chars.len() && is_number_byte(chars[i])
        invariant
            from <= i <= chars.len(),
            number_end(chars@, i as int) == number_end(chars@, from as int),
        decreases chars.len() - i,
    {
        i += 1;
    }
    i
}

fn find_word_end(chars: &Vec<char>, i: usize) -> (r: Option<usize>)
    requires
        i < chars.len(),
    ensures
        r is Some <==> word_end(chars@, i as int) is Some,
        r is Some ==> word_end(chars@, i as int) == Some(r->0 as int) && i < r->0 <= chars.len(),
{
    let left: usize = chars.len() - i;
    let ghost s = chars@;
    if left >= 4 && chars[i] == 't' && chars[i + 1] == 'r' && chars[i + 2] == 'u' && chars[i + 3]
        == 'e' {
        assert(s.subrange(i as int, i + 4) =~= seq!['t', 'r', 'u', 'e']);
        return Some(i + 4);
    }
    assert(!word_at(s, i as int, seq!['t', 'r', 'u', 'e'])) by {
        if word_at(s, i as int, seq!['t', 'r', 'u', 'e']) {
            let w = s.subrange(i as int, i + 4);
            assert(w[0] == s[i as int] && w[1] == s[i + 1] && w[2] == s[i + 2] && w[3] == s[i + 3]);
        }
    }
    if left >= 5 && chars[i] == 'f' && chars[i + 1] == 'a' && chars[i + 2] == 'l' && chars[i + 3]
        == 's' && chars[i + 4] == 'e' {
        assert(s.subrange(i as int, i + 5) =~= seq!['f', 'a', 'l', 's', 'e']);
        return Some(i + 5);
    }
    assert(!word_at(s, i as int, seq!['f', 'a', 'l', 's', 'e'])) by {
        if word_at(s, i as int, seq!['f', 'a', 'l', 's', 'e']) {
            let w = s.subrange(i as int, i + 5);
            assert(w[0] == s[i as int] && w[1] == s[i + 1] && w[2] == s[i + 2] && w[3] == s[i + 3]
                && w[4] == s[i + 4]);
        }
    }
    if left >= 4 && chars[i] == 'n' && chars[i + 1] == 'u' && chars[i + 2] == 'l' && chars[i + 3]
        == 'l' {
        assert(s.subrange(i as int, i + 4) =~= seq!['n', 'u', 'l', 'l']);
        return Some(i + 4);
    }
    assert(!word_at(s, i as int, seq!['n', 'u', 'l', 'l'])) by {
        if word_at(s, i as int, seq!['n', 'u', 'l', 'l']) {
            let w = s.subrange(i as int, i + 4);
            assert(w[0] == s[i as int] && w[1] == s[i + 1] && w[2] == s[i + 2] && w[3] == s[i + 3]);
        }
    }
    None
}

fn hex_digit(c: char) -> (r: Option<u32>)
    ensures
        r is Some <==> hex_value(c) is Some,
        r is Some ==> hex_value(c) == Some(r->0 as nat) && r->0 < 16,
{
    if '0' <= c && c <= '9' {
        Some(c as u32 - 48)
    } else if 'a' <= c && c <= 'f' {
        Some(c as u32 - 87)
    } else if 'A' <= c && c <= 'F' {
        Some(c as u32 - 55)
    } else {
        None
    }
}

fn parse_hex4(chars: &Vec<char>, from: usize) -> (r: Option<u32>)
    requires
        from + 4 <= chars.len(),
    ensures
        r is Some <==> hex4(chars@.subrange(from as int, from + 4)) is Some,
        r is Some ==> hex4(chars@.subrange(from as int, from + 4)) == Some(r->0 as nat) && r->0
            < 0x10000,
{
    let ghost four = chars@.subrange(from as int, from + 4);
    let mut i: usize = if chars[from] == '+' {
        from + 1
    } else {
        from
    };
    let mut n: u32 = 0;
    let ghost digits = four.skip(i - from);
    assert(hex4(four) == hex_number(digits, 0)) by {
        if chars@[from as int] == '+' {
            assert(four.drop_first() =~= digits);
        } else {
            assert(four =~= digits);
        }
    }
    assert(digits =~= chars@.subrange(i as int, from + 4));
    let ghost start = i;
    while i < from + 4
        invariant
            from + 4 <= chars.len(),
            from <= start <= i <= from + 4,
            four == chars@.subrange(from as int, from + 4),
            hex4(four) == hex_number(digits, 0),
            hex_number(digits, 0) == hex_number(chars@.subrange(i as int, from + 4), n as nat),
            i == from ==> n == 0,
            i == from + 1 ==> n < 0x10,
            i == from + 2 ==> n < 0x100,
            i == from + 3 ==> n < 0x1000,
            i == from + 4 ==> n < 0x10000,
        decreases from + 4 - i,
    {
        let ghost rest = chars@.subrange(i as int, from + 4);
        assert(rest.drop_first() =~= chars@.subrange(i + 1, from + 4));
        assert(rest[0] == chars@[i as int]);
        match hex_digit(chars[i]) {
            Some(d) => {
                n = n * 16 + d;
            },
            None => {
                return None;
            },
        }
        i += 1;
    }
    assert(chars@.subrange(i as int, from + 4) =~= Seq::empty());
    Some(n)
}

fn push_bytewise(out: &mut String, c: char)
    ensures
        final(out)@ == old(out)@ + bytewise(c),
{
    if (c as u32) < 0x80 {
        out.push(c);
        assert(out@ =~= old(out)@ + bytewise(c));
        return;
    }
    let mut one = String::new();
    one.push(c);
    proof {
        assert(one@ =~= seq![c]);
        assert(one@.drop_first() =~= Seq::empty());
        assert(encode_utf8(one@) =~= encode_scalar(c as u32)) by {
            assert(encode_utf8(Seq::<char>::empty()) =~= Seq::empty());
        }
    }
    let bytes = one.as_str().as_bytes();
    let mut i: usize = 0;
    assert(bytewise(c).take(0) =~= Seq::empty());
    while i < bytes.len()
        invariant
            i <= bytes.len(),
            bytes@ == encode_scalar(c as u32),
            c as u32 >= 0x80,
            out@ == old(out)@ + bytewise(c).take(i as int),
        decreases bytes.len() - i,
    {
        out.push(bytes[i] as char);
        assert(out@ =~= old(out)@ + bytewise(c).take(i + 1));
        i += 1;
    }
    assert(bytewise(c).take(bytes.len() as int) =~= bytewise(c));
}

/// What the content of a JSON string spells.
pub fn unescape_json_string(content: &str) -> (r: String)
    ensures
        r@ == unescaped(content@),
{
    let chars = to_chars(content);
    let mut out = String::new();
    let mut i: usize = 0;
    assert(out@ + unescaped_from(chars@, 0) =~= unescaped(content@));
    while i < chars.len()
        invariant
            i <= chars.len(),
            chars@ == content@,
            out@ + unescaped_from(chars@, i as int) == unescaped(content@),
        decreases chars.len() - i,
    {
        let ghost before = out@;
        let ghost now = unescaped_from(chars@, i as int);
        if chars[i] == '\\' && chars.len() - i > 1 {
            let c = chars[i + 1];
            if c == 'u' && chars.len() - i > 5 {
                match parse_hex4(&chars, i + 2) {
                    Some(code) => {
                        match char::from_u32(code) {
                            Some(ch) => {
                                out.push(ch);
                            },
                            None => {},
                        }
                        assert(out@ =~= before + scalar_text(code as nat));
                        assert(out@ + unescaped_from(chars@, i + 6) =~= before + now);
                        i += 6;
                        continue;
                    },
                    None => {},
                }
            }
            if c == 'n' {
                out.push('\n');
                assert(out@ =~= before + escape_meaning(c));
            } else if c == 'r' {
                out.push('\r');
                assert(out@ =~= before + escape_meaning(c));
            } else if c == 't' {
                out.push('\t');
                assert(out@ =~= before + escape_meaning(c));
            } else {
                push_bytewise(&mut out, c);
            }
            assert(out@ + unescaped_from(chars@, i + 2) =~= before + now);
            i += 2;
        } else {
            push_bytewise(&mut out, chars[i]);
            assert(out@ + unescaped_from(chars@, i + 1) =~= before + now);
            i += 1;
        }
    }
    assert(out@ + unescaped_from(chars@, i as int) =~= out@);
    out
}

// ── The pass ─────────────────────────────────────────────────────────
/// The content of the string token from `start` to `end`.
pub open spec fn string_content(s: Seq<char>, start: int, end: int) -> Seq<char> {
    if end - 1 > start {
        s.subrange(start + 1, end - 1)
    } else {
        Seq::empty()
    }
}

/// One token: where the next one starts, and the state behind it.
pub open spec fn scan_step(s: Seq<char>, pos: int, st: ScanView) -> (int, ScanView) {
    let c = s[pos];
    if c == '/' && pos + 1 < s.len() && s[pos + 1] == '/' {
        (line_end(s, pos), st)
    } else if c == '/' && pos + 1 < s.len() && s[pos + 1] == '*' {
        (block_end(s, pos + 2), st)
    } else if c == '{' || c == '[' {
        (pos + 1, after_open(st, pos, c == '['))
    } else if c == '}' || c == ']' {
        (pos + 1, after_close(st, pos))
    } else if c == '"' {
        let end = string_end(s, pos + 1);
        (end, after_string(st, pos, end, unescaped(string_content(s, pos, end))))
    } else if c == '-' || '0' <= c <= '9' {
        let end = number_end(s, pos);
        (end, after_scalar(st, pos, end))
    } else {
        match word_end(s, pos) {
            Some(end) => (end, after_scalar(st, pos, end)),
            None => (pos + 1, st),
        }
    }
}

/// The pass from `pos` on.
pub open spec fn scan_from(s: Seq<char>, pos: int, st: ScanView) -> SpansView
    decreases s.len() - pos,
{
    if pos < 0 || pos >= s.len() {
        st.spans
    } else {
        let (next, after) = scan_step(s, pos, st);
        if next <= pos || next > s.len() {
            st.spans
        } else {
            scan_from(s, next, after)
        }
    }
}

/// The state before the first token.
pub open spec fn scan_start() -> ScanView {
    ScanView {
        spans: SpansView {
            values: Seq::empty(),
            keys: Seq::empty(),
            opens: Seq::empty(),
            closes: Seq::empty(),
        },
        stack: Seq::empty(),
    }
}

/// Where everything stands in a text, in characters from its start.
pub open spec fn scan(s: Seq<char>) -> SpansView {
    scan_from(s, 0, scan_start())
}

fn new_scan() -> (r: Scan)
    ensures
        r@ == scan_start(),
        r.bounded(0),
{
    let r = Scan {
        spans: Spans { values: Vec::new(), keys: Vec::new(), opens: Vec::new(), closes: Vec::new() },
        stack: Vec::new(),
    };
    assert(r@ =~= scan_start());
    r
}

/// Where everything stands, in characters from the start of the text.
pub fn scan_chars(chars: &Vec<char>) -> (r: Spans)
    ensures
        r@ == scan(chars@),
{
    let mut st = new_scan();
    let mut pos: usize = 0;
    let ghost s = chars@;
    while pos < chars.len()
        invariant
            pos <= chars.len(),
            s == chars@,
            st.bounded(pos as int),
            scan_from(s, pos as int, st@) == scan(s),
        decreases chars.len() - pos,
    {
        let ghost before = st@;
        let ghost at = pos;
        let c = chars[pos];
        let more = chars.len() - pos > 1;
        if c == '/' && more && chars[pos + 1] == '/' {
            pos = find_line_end(chars, pos);
            proof {
                lemma_line_end_moves(s, at as int);
            }
        } else if c == '/' && more && chars[pos + 1] == '*' {
            pos = find_block_end(chars, pos + 2);
        } else if c == '{' || c == '[' {
            st.open(pos, c == '[');
            pos += 1;
        } else if c == '}' || c == ']' {
            st.close(pos);
            pos += 1;
        } else if c == '"' {
            let end: usize = find_string_end(chars, pos + 1);
            let content = if end - pos > 1 {
                from_chars(chars, pos + 1, end - 1)
            } else {
                String::new()
            };
            assert(content@ =~= string_content(s, at as int, end as int));
            let inner = unescape_json_string(content.as_str());
            st.string(pos, end, inner);
            pos = end;
        } else if c == '-' || ('0' <= c && c <= '9') {
            let end: usize = find_number_end(chars, pos);
            st.scalar(pos, end);
            pos = end;
        } else {
            match find_word_end(chars, pos) {
                Some(end) => {
                    st.scalar(pos, end);
                    pos = end;
                },
                None => {
                    pos += 1;
                },
            }
        }
        assert(scan_step(s, at as int, before) == (pos as int, st@));
        assert(st.bounded(pos as int));
    }
    st.spans
}

proof fn lemma_line_end_moves(s: Seq<char>, i: int)
    requires
        0 <= i < s.len(),
        s[i] != '\n',
    ensures
        line_end(s, i) > i,
    decreases s.len() - i,
{
    if i + 1 < s.len() && s[i + 1] != '\n' {
        lemma_line_end_moves(s, i + 1);
    } else {
        reveal_with_fuel(line_end, 2);
    }
}

// ── What the pass records lies in the text ───────────────────────────
/// Every recorded position lies below `n`, and no span is empty.
pub open spec fn within(sp: SpansView, n: int) -> bool {
    &&& forall|i: int|
        0 <= i < sp.values.len() ==> 0 <= (#[trigger] sp.values[i]).1 < sp.values[i].2 <= n
    &&& forall|i: int|
        0 <= i < sp.keys.len() ==> 0 <= (#[trigger] sp.keys[i]).2 < sp.keys[i].3 <= n
    &&& forall|i: int| 0 <= i < sp.opens.len() ==> 0 <= (#[trigger] sp.opens[i]).1 < n
    &&& forall|i: int| 0 <= i < sp.closes.len() ==> 0 <= (#[trigger] sp.closes[i]).1 < n
}

proof fn lemma_scan_from_within(s: Seq<char>, pos: int, st: ScanView)
    requires
        0 <= pos <= s.len(),
        within(st.spans, pos),
    ensures
        within(scan_from(s, pos, st), s.len() as int),
    decreases s.len() - pos,
{
    if pos < s.len() {
        let (next, after) = scan_step(s, pos, st);
        if pos < next <= s.len() {
            assert(within(after.spans, next));
            lemma_scan_from_within(s, next, after);
        }
    }
}

/// Every span that the pass records lies inside the text.
pub proof fn lemma_scan_within(s: Seq<char>)
    ensures
        within(scan(s), s.len() as int),
{
    lemma_scan_from_within(s, 0, scan_start());
}

// ── Looking up by path ───────────────────────────────────────────────
/// The first value span recorded for a path, from entry `i` on.
pub open spec fn value_from(v: Seq<(Seq<SegView>, int, int)>, path: Seq<SegView>, i: int) -> Option<
    (int, int),
>
    decreases v.len() - i,
{
    if i < 0 || i >= v.len() {
        None
    } else if v[i].0 == path {
        Some((v[i].1, v[i].2))
    } else {
        value_from(v, path, i + 1)
    }
}

/// The first bracket recorded for a path, from entry `i` on.
pub open spec fn bracket_from(v: Seq<(Seq<SegView>, int)>, path: Seq<SegView>, i: int) -> Option<int>
    decreases v.len() - i,
{
    if i < 0 || i >= v.len() {
        None
    } else if v[i].0 == path {
        Some(v[i].1)
    } else {
        bracket_from(v, path, i + 1)
    }
}

/// The first key of a name recorded for a path, from entry `i` on.
pub open spec fn key_from(
    v: Seq<(Seq<SegView>, Seq<char>, int, int)>,
    path: Seq<SegView>,
    name: Seq<char>,
    i: int,
) -> Option<(int, int)>
    decreases v.len() - i,
{
    if i < 0 || i >= v.len() {
        None
    } else if v[i].0 == path && v[i].1 == name {
        Some((v[i].2, v[i].3))
    } else {
        key_from(v, path, name, i + 1)
    }
}

/// Where the scalar value at a path stands, in characters.
pub open spec fn value_span(s: Seq<char>, path: Seq<SegView>) -> Option<(int, int)> {
    value_from(scan(s).values, path, 0)
}

/// Where the container at a path opens, in characters.
pub open spec fn open_at(s: Seq<char>, path: Seq<SegView>) -> Option<int> {
    bracket_from(scan(s).opens, path, 0)
}

/// Where the container at a path closes, in characters.
pub open spec fn close_at(s: Seq<char>, path: Seq<SegView>) -> Option<int> {
    bracket_from(scan(s).closes, path, 0)
}

/// Where the key of a member stands, in characters.
pub open spec fn key_span(s: Seq<char>, object: Seq<SegView>, name: Seq<char>) -> Option<(int, int)> {
    key_from(scan(s).keys, object, name, 0)
}

/// A located span lies inside the text and is not empty.
pub proof fn lemma_value_span_bounds(s: Seq<char>, path: Seq<SegView>)
    ensures
        value_span(s, path) is Some ==> 0 <= value_span(s, path).unwrap().0 < value_span(s, path).unwrap().1
            <= s.len(),
{
    lemma_scan_within(s);
    lemma_value_from_bounds(scan(s), path, 0, s.len() as int);
}

proof fn lemma_value_from_bounds(sp: SpansView, path: Seq<SegView>, i: int, n: int)
    requires
        within(sp, n),
        0 <= i,
    ensures
        value_from(sp.values, path, i) is Some ==> 0 <= value_from(sp.values, path, i).unwrap().0
            < value_from(sp.values, path, i).unwrap().1 <= n,
    decreases sp.values.len() - i,
{
    if i < sp.values.len() {
        assert(0 <= sp.values[i].1);
        lemma_value_from_bounds(sp, path, i + 1, n);
    }
}

/// A located bracket lies inside the text.
pub proof fn lemma_bracket_bounds(s: Seq<char>, path: Seq<SegView>)
    ensures
        open_at(s, path) is Some ==> 0 <= open_at(s, path)->0 < s.len(),
        close_at(s, path) is Some ==> 0 <= close_at(s, path)->0 < s.len(),
{
    lemma_scan_within(s);
    let sp = scan(s);
    assert forall|i: int| 0 <= i < sp.opens.len() implies 0 <= (#[trigger] sp.opens[i]).1
        < s.len() by {}
    lemma_bracket_from_bounds(sp.opens, path, 0, s.len() as int);
    lemma_bracket_from_bounds(sp.closes, path, 0, s.len() as int);
}

proof fn lemma_bracket_from_bounds(v: Seq<(Seq<SegView>, int)>, path: Seq<SegView>, i: int, n: int)
    requires
        forall|k: int| 0 <= k < v.len() ==> 0 <= (#[trigger] v[k]).1 < n,
        0 <= i,
    ensures
        bracket_from(v, path, i) is Some ==> 0 <= bracket_from(v, path, i)->0 < n,
    decreases v.len() - i,
{
    if i < v.len() {
        assert(0 <= v[i].1);
        lemma_bracket_from_bounds(v, path, i + 1, n);
    }
}

/// A located key lies inside the text and is not empty.
pub proof fn lemma_key_span_bounds(s: Seq<char>, object: Seq<SegView>, name: Seq<char>)
    ensures
        key_span(s, object, name) is Some ==> 0 <= key_span(s, object, name).unwrap().0 < key_span(
            s,
            object,
            name,
        ).unwrap().1 <= s.len(),
{
    lemma_scan_within(s);
    lemma_key_from_bounds(scan(s), object, name, 0, s.len() as int);
}

proof fn lemma_key_from_bounds(sp: SpansView, path: Seq<SegView>, name: Seq<char>, i: int, n: int)
    requires
        within(sp, n),
        0 <= i,
    ensures
        key_from(sp.keys, path, name, i) is Some ==> 0 <= key_from(sp.keys, path, name, i).unwrap().0
            < key_from(sp.keys, path, name, i).unwrap().1 <= n,
    decreases sp.keys.len() - i,
{
    if i < sp.keys.len() {
        assert(0 <= sp.keys[i].2);
        lemma_key_from_bounds(sp, path, name, i + 1, n);
    }
}

impl Spans {
    /// The first value span recorded for the path.
    pub fn value(&self, path: &[PathSeg]) -> (r: Option<(usize, usize)>)
        ensures
            r is Some <==> value_from(self@.values, path_view(path@), 0) is Some,
            r is Some ==> value_from(self@.values, path_view(path@), 0) == Some(
                (r.unwrap().0 as int, r.unwrap().1 as int),
            ),
    {
        let mut i: usize = 0;
        while i < self.values.len()
            invariant
                i <= self.values.len(),
                value_from(self@.values, path_view(path@), 0) == value_from(
                    self@.values,
                    path_view(path@),
                    i as int,
                ),
            decreases self.values.len() - i,
        {
            if same_path(self.values[i].0.as_slice(), path) {
                return Some(self.values[i].1);
            }
            i += 1;
        }
        None
    }

    /// The first opening bracket recorded for the path.
    pub fn opening(&self, path: &[PathSeg]) -> (r: Option<usize>)
        ensures
            r is Some <==> bracket_from(self@.opens, path_view(path@), 0) is Some,
            r is Some ==> bracket_from(self@.opens, path_view(path@), 0) == Some(r->0 as int),
    {
        let mut i: usize = 0;
        while i < self.opens.len()
            invariant
                i <= self.opens.len(),
                bracket_from(self@.opens, path_view(path@), 0) == bracket_from(
                    self@.opens,
                    path_view(path@),
                    i as int,
                ),
            decreases self.opens.len() - i,
        {
            if same_path(self.opens[i].0.as_slice(), path) {
                return Some(self.opens[i].1);
            }
            i += 1;
        }
        None
    }

    /// The first closing bracket recorded for the path.
    pub fn closing(&self, path: &[PathSeg]) -> (r: Option<usize>)
        ensures
            r is Some <==> bracket_from(self@.closes, path_view(path@), 0) is Some,
            r is Some ==> bracket_from(self@.closes, path_view(path@), 0) == Some(r->0 as int),
    {
        let mut i: usize = 0;
        while i < self.closes.len()
            invariant
                i <= self.closes.len(),
                bracket_from(self@.closes, path_view(path@), 0) == bracket_from(
                    self@.closes,
                    path_view(path@),
                    i as int,
                ),
            decreases self.closes.len() - i,
        {
            if same_path(self.closes[i].0.as_slice(), path) {
                return Some(self.closes[i].1);
            }
            i += 1;
        }
        None
    }

    /// The first key span recorded for a member of the object.
    pub fn key(&self, object: &[PathSeg], name: &str) -> (r: Option<(usize, usize)>)
        ensures
            r is Some <==> key_from(self@.keys, path_view(object@), name@, 0) is Some,
            r is Some ==> key_from(self@.keys, path_view(object@), name@, 0) == Some(
                (r.unwrap().0 as int, r.unwrap().1 as int),
            ),
    {
        let mut i: usize = 0;
        while i < self.keys.len()
            invariant
                i <= self.keys.len(),
                key_from(self@.keys, path_view(object@), name@, 0) == key_from(
                    self@.keys,
                    path_view(object@),
                    name@,
                    i as int,
                ),
            decreases self.keys.len() - i,
        {
            if same_path(self.keys[i].0.as_slice(), object) && same(
                self.keys[i].1.as_str(),
                name,
            ) {
                return Some(self.keys[i].2);
            }
            i += 1;
        }
        None
    }
}

// ── Positions in bytes ───────────────────────────────────────────────
/// The position in bytes of the character at `i`.
pub open spec fn byte_pos(s: Seq<char>, i: int) -> nat {
    encode_utf8(s.take(i)).len()
}

proof fn lemma_encode_push(s: Seq<char>, c: char)
    ensures
        encode_utf8(s.push(c)) == encode_utf8(s) + encode_scalar(c as u32),
    decreases s.len(),
{
    let t = s.push(c);
    if s.len() == 0 {
        assert(t.drop_first() =~= Seq::empty());
        assert(encode_utf8(Seq::<char>::empty()) =~= Seq::empty());
        assert(encode_utf8(t) =~= encode_utf8(s) + encode_scalar(c as u32));
    } else {
        lemma_encode_push(s.drop_first(), c);
        assert(t.drop_first() =~= s.drop_first().push(c));
        assert(encode_utf8(t) =~= encode_utf8(s) + encode_scalar(c as u32));
    }
}

proof fn lemma_byte_pos_grows(s: Seq<char>, i: int)
    requires
        0 <= i <= s.len(),
    ensures
        byte_pos(s, i) <= encode_utf8(s).len(),
    decreases s.len() - i,
{
    if i < s.len() {
        lemma_byte_pos_grows(s, i + 1);
        assert(s.take(i + 1) =~= s.take(i).push(s[i]));
        lemma_encode_push(s.take(i), s[i]);
    } else {
        assert(s.take(i) =~= s);
    }
}

/// The byte position of every character, and of the end.
fn byte_positions(text: &str, chars: &Vec<char>) -> (r: Vec<usize>)
    requires
        chars@ == text@,
    ensures
        r@.len() == chars@.len() + 1,
        forall|i: int| 0 <= i <= chars@.len() ==> #[trigger] r@[i] == byte_pos(text@, i),
{
    let total: usize = text.as_bytes().len();
    let mut out: Vec<usize> = Vec::new();
    let mut at: usize = 0;
    let mut i: usize = 0;
    assert(text@.take(0) =~= Seq::empty());
    out.push(0);
    while i < chars.len()
        invariant
            i <= chars.len(),
            chars@ == text@,
            total == encode_utf8(text@).len(),
            out@.len() == i + 1,
            at == byte_pos(text@, i as int),
            forall|j: int| 0 <= j <= i ==> #[trigger] out@[j] == byte_pos(text@, j),
        decreases chars.len() - i,
    {
        let n: u32 = chars[i] as u32;
        let w: usize = if n < 0x80 {
            1
        } else if n < 0x800 {
            2
        } else if n < 0x10000 {
            3
        } else {
            4
        };
        proof {
            assert(text@.take(i + 1) =~= text@.take(i as int).push(text@[i as int]));
            lemma_encode_push(text@.take(i as int), text@[i as int]);
            vstd::utf8::char_is_scalar(text@[i as int]);
            lemma_byte_pos_grows(text@, i + 1);
        }
        at = at + w;
        out.push(at);
        i += 1;
    }
    out
}

/// Where the scalar value at a path stands, in bytes.
pub fn locate_value(text: &str, path: &[PathSeg]) -> (r: Option<(usize, usize)>)
    ensures
        r is Some <==> value_span(text@, path_view(path@)) is Some,
        r matches Some((a, b)) ==> {
            let span = value_span(text@, path_view(path@))->0;
            a == byte_pos(text@, span.0) && b == byte_pos(text@, span.1)
        },
{
    let chars = to_chars(text);
    match scan_chars(&chars).value(path) {
        None => None,
        Some((a, b)) => {
            proof {
                lemma_value_span_bounds(text@, path_view(path@));
            }
            let at = byte_positions(text, &chars);
            Some((at[a], at[b]))
        },
    }
}

/// Where the container at a path opens, in bytes.
pub fn locate_container_open(text: &str, path: &[PathSeg]) -> (r: Option<usize>)
    ensures
        r is Some <==> open_at(text@, path_view(path@)) is Some,
        r is Some ==> r->0 == byte_pos(text@, open_at(text@, path_view(path@))->0),
{
    let chars = to_chars(text);
    match scan_chars(&chars).opening(path) {
        None => None,
        Some(a) => {
            proof {
                lemma_bracket_bounds(text@, path_view(path@));
            }
            let at = byte_positions(text, &chars);
            Some(at[a])
        },
    }
}

/// Where the container at a path closes, in bytes.
pub fn locate_container_close(text: &str, path: &[PathSeg]) -> (r: Option<usize>)
    ensures
        r is Some <==> close_at(text@, path_view(path@)) is Some,
        r is Some ==> r->0 == byte_pos(text@, close_at(text@, path_view(path@))->0),
{
    let chars = to_chars(text);
    match scan_chars(&chars).closing(path) {
        None => None,
        Some(a) => {
            proof {
                lemma_bracket_bounds(text@, path_view(path@));
            }
            let at = byte_positions(text, &chars);
            Some(at[a])
        },
    }
}

/// The same spans with their positions in bytes.
pub open spec fn in_bytes(s: Seq<char>, sp: SpansView) -> SpansView {
    SpansView {
        values: Seq::new(
            sp.values.len(),
            |i: int|
                (
                    sp.values[i].0,
                    byte_pos(s, sp.values[i].1) as int,
                    byte_pos(s, sp.values[i].2) as int,
                ),
        ),
        keys: Seq::new(
            sp.keys.len(),
            |i: int|
                (
                    sp.keys[i].0,
                    sp.keys[i].1,
                    byte_pos(s, sp.keys[i].2) as int,
                    byte_pos(s, sp.keys[i].3) as int,
                ),
        ),
        opens: Seq::new(
            sp.opens.len(),
            |i: int| (sp.opens[i].0, byte_pos(s, sp.opens[i].1) as int),
        ),
        closes: Seq::new(
            sp.closes.len(),
            |i: int| (sp.closes[i].0, byte_pos(s, sp.closes[i].1) as int),
        ),
    }
}

fn brackets_in_bytes(v: &Vec<(Vec<PathSeg>, usize)>, at: &Vec<usize>) -> (r: Vec<
    (Vec<PathSeg>, usize),
>)
    requires
        forall|i: int| 0 <= i < v@.len() ==> (#[trigger] v@[i]).1 < at@.len(),
    ensures
        r@.len() == v@.len(),
        forall|i: int|
            0 <= i < v@.len() ==> path_view((#[trigger] r@[i]).0@) == path_view(v@[i].0@) && r@[i].1
                == at@[v@[i].1 as int],
{
    let mut out: Vec<(Vec<PathSeg>, usize)> = Vec::new();
    let mut i: usize = 0;
    while i < v.len()
        invariant
            i <= v.len(),
            out@.len() == i,
            forall|j: int| 0 <= j < v@.len() ==> (#[trigger] v@[j]).1 < at@.len(),
            forall|j: int|
                0 <= j < i ==> path_view((#[trigger] out@[j]).0@) == path_view(v@[j].0@)
                    && out@[j].1 == at@[v@[j].1 as int],
        decreases v.len() - i,
    {
        assert(v@[i as int].1 < at@.len());
        out.push((copy_path(v[i].0.as_slice()), at[v[i].1]));
        i += 1;
    }
    out
}

/// Where everything stands in a text, in bytes from its start.
pub fn scan_jsonc(text: &str) -> (r: Spans)
    ensures
        r@ == in_bytes(text@, scan(text@)),
{
    let chars = to_chars(text);
    let sp = scan_chars(&chars);
    let at = byte_positions(text, &chars);
    let ghost n = text@.len() as int;
    proof {
        lemma_scan_within(text@);
    }
    let ghost sv = sp@;
    assert forall|i: int| 0 <= i < sp.values@.len() implies (#[trigger] sp.values@[i]).1.0 <= n
        && sp.values@[i].1.1 <= n by {
        assert(sv.values[i].1 <= n);
    }
    assert forall|i: int| 0 <= i < sp.keys@.len() implies (#[trigger] sp.keys@[i]).2.0 <= n
        && sp.keys@[i].2.1 <= n by {
        assert(sv.keys[i].2 <= n);
    }
    assert forall|i: int| 0 <= i < sp.opens@.len() implies (#[trigger] sp.opens@[i]).1
        < at@.len() by {
        assert(sv.opens[i].1 < n);
    }
    assert forall|i: int| 0 <= i < sp.closes@.len() implies (#[trigger] sp.closes@[i]).1
        < at@.len() by {
        assert(sv.closes[i].1 < n);
    }
    let mut values: Vec<(Vec<PathSeg>, (usize, usize))> = Vec::new();
    let mut i: usize = 0;
    while i < sp.values.len()
        invariant
            i <= sp.values.len(),
            values@.len() == i,
            at@.len() == n + 1,
            forall|j: int|
                0 <= j < sp.values@.len() ==> (#[trigger] sp.values@[j]).1.0 <= n
                    && sp.values@[j].1.1 <= n,
            forall|j: int|
                0 <= j < i ==> path_view((#[trigger] values@[j]).0@) == path_view(
                    sp.values@[j].0@,
                ) && values@[j].1.0 == at@[sp.values@[j].1.0 as int] && values@[j].1.1
                    == at@[sp.values@[j].1.1 as int],
        decreases sp.values.len() - i,
    {
        assert(sp.values@[i as int].1.0 <= n);
        let (a, b) = sp.values[i].1;
        values.push((copy_path(sp.values[i].0.as_slice()), (at[a], at[b])));
        i += 1;
    }
    let mut keys: Vec<(Vec<PathSeg>, String, (usize, usize))> = Vec::new();
    let mut k: usize = 0;
    while k < sp.keys.len()
        invariant
            k <= sp.keys.len(),
            keys@.len() == k,
            at@.len() == n + 1,
            forall|j: int|
                0 <= j < sp.keys@.len() ==> (#[trigger] sp.keys@[j]).2.0 <= n && sp.keys@[j].2.1
                    <= n,
            forall|j: int|
                0 <= j < k ==> path_view((#[trigger] keys@[j]).0@) == path_view(sp.keys@[j].0@)
                    && keys@[j].1@ == sp.keys@[j].1@ && keys@[j].2.0
                    == at@[sp.keys@[j].2.0 as int] && keys@[j].2.1 == at@[sp.keys@[j].2.1 as int],
        decreases sp.keys.len() - k,
    {
        assert(sp.keys@[k as int].2.0 <= n);
        let (a, b) = sp.keys[k].2;
        keys.push(
            (copy_path(sp.keys[k].0.as_slice()), owned(sp.keys[k].1.as_str()), (at[a], at[b])),
        );
        k += 1;
    }
    let opens = brackets_in_bytes(&sp.opens, &at);
    let closes = brackets_in_bytes(&sp.closes, &at);
    let r = Spans { values, keys, opens, closes };
    proof {
        let e = in_bytes(text@, sv);
        assert(r@.values =~= e.values);
        assert(r@.keys =~= e.keys);
        assert(r@.opens =~= e.opens);
        assert(r@.closes =~= e.closes);
    }
    r
}

} // verus!
