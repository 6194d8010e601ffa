//! Editing JSONC text in place.
//!
//! An edit replaces, inserts or removes a piece of the text and keeps the
//! rest as it is, comments included. A sequence of edits is applied one after
//! the other; the text must hold a valid configuration after each of them.
use crate::config::{config_error, config_text, parse_jsonc_text};
use crate::jsonc::is_blank;
use crate::locate::{
    block_end, close_at, copy_path, find_block_end, find_line_end, find_string_end, key_span,
    lemma_bracket_bounds, lemma_key_span_bounds, lemma_value_span_bounds, line_end, open_at,
    path_view, scan_chars, string_end, value_span, PathSeg, SegView,
};
use crate::number::{decimal, decimal_text};
use crate::text::{from_chars, owned, to_chars};
use vstd::prelude::*;

verus! {

/// One change of the text.
#[derive(Debug, PartialEq)]
pub enum EditOp {
    /// Replaces the scalar value at `path`.
    SetScalar { path: Vec<PathSeg>, literal: String },
    /// Puts `block` before the closing bracket of the container at `path`.
    AppendBlock { path: Vec<PathSeg>, block: String },
    /// Puts `block` above the line of member `key` of the object at `path`.
    InsertBefore { path: Vec<PathSeg>, key: String, block: String },
    /// Removes the lines of member `key` of the object at `path`.
    RemoveKey { path: Vec<PathSeg>, key: String },
    /// Replaces the whole container at `path`.
    ReplaceContainer { path: Vec<PathSeg>, literal: String },
}

/// The meaning of an [`EditOp`].
pub enum EditView {
    SetScalar { path: Seq<SegView>, literal: Seq<char> },
    AppendBlock { path: Seq<SegView>, block: Seq<char> },
    InsertBefore { path: Seq<SegView>, key: Seq<char>, block: Seq<char> },
    RemoveKey { path: Seq<SegView>, key: Seq<char> },
    ReplaceContainer { path: Seq<SegView>, literal: Seq<char> },
}

impl View for EditOp {
    type V = EditView;

    open spec fn view(&self) -> EditView {
        match self {
            EditOp::SetScalar { path, literal } => EditView::SetScalar {
                path: path_view(path@),
                literal: literal@,
            },
            EditOp::AppendBlock { path, block } => EditView::AppendBlock {
                path: path_view(path@),
                block: block@,
            },
            EditOp::InsertBefore { path, key, block } => EditView::InsertBefore {
                path: path_view(path@),
                key: key@,
                block: block@,
            },
            EditOp::RemoveKey { path, key } => EditView::RemoveKey {
                path: path_view(path@),
                key: key@,
            },
            EditOp::ReplaceContainer { path, literal } => EditView::ReplaceContainer {
                path: path_view(path@),
                literal: literal@,
            },
        }
    }
}

/// The path that an edit is about.
pub open spec fn edit_path(op: EditView) -> Seq<SegView> {
    match op {
        EditView::SetScalar { path, .. } => path,
        EditView::AppendBlock { path, .. } => path,
        EditView::InsertBefore { path, .. } => path,
        EditView::RemoveKey { path, .. } => path,
        EditView::ReplaceContainer { path, .. } => path,
    }
}

impl EditOp {
    /// The path that the edit is about.
    pub fn path(&self) -> (r: &[PathSeg])
        ensures
            path_view(r@) == edit_path(self@),
    {
        match self {
            EditOp::SetScalar { path, .. } => path.as_slice(),
            EditOp::AppendBlock { path, .. } => path.as_slice(),
            EditOp::InsertBefore { path, .. } => path.as_slice(),
            EditOp::RemoveKey { path, .. } => path.as_slice(),
            EditOp::ReplaceContainer { path, .. } => path.as_slice(),
        }
    }

    /// A copy of the edit.
    pub fn copy(&self) -> (r: Self)
        ensures
            r@ == self@,
    {
        match self {
            EditOp::SetScalar { path, literal } => EditOp::SetScalar {
                path: copy_path(path.as_slice()),
                literal: owned(literal.as_str()),
            },
            EditOp::AppendBlock { path, block } => EditOp::AppendBlock {
                path: copy_path(path.as_slice()),
                block: owned(block.as_str()),
            },
            EditOp::InsertBefore { path, key, block } => EditOp::InsertBefore {
                path: copy_path(path.as_slice()),
                key: owned(key.as_str()),
                block: owned(block.as_str()),
            },
            EditOp::RemoveKey { path, key } => EditOp::RemoveKey {
                path: copy_path(path.as_slice()),
                key: owned(key.as_str()),
            },
            EditOp::ReplaceContainer { path, literal } => EditOp::ReplaceContainer {
                path: copy_path(path.as_slice()),
                literal: owned(literal.as_str()),
            },
        }
    }
}

// ── Paths in messages ────────────────────────────────────────────────
/// What the `Debug` form of `str` makes of a text.
pub uninterp spec fn debug_quoted(s: Seq<char>) -> Seq<char>;

/// The `Debug` form of a string slice: quotes around it, and escapes for
/// what does not print. It depends on the text alone.
#[verifier::external_body]
pub(crate) fn debug_string(s: &str) -> (r: String)
    ensures
        r@ == debug_quoted(s@),
{
    format!("{s:?}")
}

/// A path step in a message.
pub open spec fn seg_debug(seg: SegView) -> Seq<char> {
    match seg {
        SegView::Key(k) => "Key("@ + debug_quoted(k) + ")"@,
        SegView::Index(n) => "Index("@ + decimal(n) + ")"@,
    }
}

/// The steps of a path in a message, from the first to the one before `n`.
pub open spec fn segs_debug(path: Seq<SegView>, n: int) -> Seq<char>
    decreases n,
{
    if n <= 0 {
        Seq::empty()
    } else if n == 1 {
        seg_debug(path[0])
    } else {
        segs_debug(path, n - 1) + ", "@ + seg_debug(path[n - 1])
    }
}

/// A path in a message.
pub open spec fn path_debug(path: Seq<SegView>) -> Seq<char> {
    "["@ + segs_debug(path, path.len() as int) + "]"@
}

/// A path in a message.
pub fn path_text(path: &[PathSeg]) -> (r: String)
    ensures
        r@ == path_debug(path_view(path@)),
{
    let mut out = owned("[");
    let mut i: usize = 0;
    let ghost pv = path_view(path@);
    assert(out@ =~= "["@ + segs_debug(pv, 0));
    while i < path.len()
        invariant
            i <= path.len(),
            pv == path_view(path@),
            out@ == "["@ + segs_debug(pv, i as int),
        decreases path.len() - i,
    {
        let ghost before = out@;
        if i > 0 {
            out.append(", ");
        }
        assert(pv[i as int] == path@[i as int]@);
        match &path[i] {
            PathSeg::Key(k) => {
                out.append("Key(");
                out.append(debug_string(k.as_str()).as_str());
                out.append(")");
            },
            PathSeg::Index(n) => {
                out.append("Index(");
                out.append(decimal_text(*n as u64).as_str());
                out.append(")");
            },
        }
        assert(out@ =~= "["@ + segs_debug(pv, i + 1));
        i += 1;
    }
    out.append("]");
    out
}

// ── Lines ────────────────────────────────────────────────────────────
/// The position behind the last line break before `pos`.
pub open spec fn line_start(s: Seq<char>, pos: int) -> int
    decreases pos,
{
    if pos <= 0 {
        0
    } else if s[pos - 1] == '\n' {
        pos
    } else {
        line_start(s, pos - 1)
    }
}

/// The first position from `from` on, and before `to`, that holds neither a
/// space nor a tab.
pub open spec fn blank_end(s: Seq<char>, from: int, to: int) -> int
    decreases to - from,
{
    if from < to && (s[from] == ' ' || s[from] == '\t') {
        blank_end(s, from + 1, to)
    } else {
        from
    }
}

/// The spaces and tabs that the line of `pos` starts with.
pub open spec fn line_indent(s: Seq<char>, pos: int) -> Seq<char> {
    s.subrange(line_start(s, pos), blank_end(s, line_start(s, pos), pos))
}

fn find_line_start(chars: &Vec<char>, pos: usize) -> (r: usize)
    requires
        pos <= chars.len(),
    ensures
        r == line_start(chars@, pos as int),
        r <= pos,
{
    let mut i: usize = pos;
    while i > 0 && chars[i - 1] != '\n'
        invariant
            i <= pos <= chars.len(),
            line_start(chars@, i as int) == line_start(chars@, pos as int),
        decreases i,
    {
        i -= 1;
    }
    i
}

fn find_blank_end(chars: &Vec<char>, from: usize, to: usize) -> (r: usize)
    requires
        from <= to <= chars.len(),
    ensures
        r == blank_end(chars@, from as int, to as int),
        from <= r <= to,
{
    let mut i: usize = from;
    while i < to && (chars[i] == ' ' || chars[i] == '\t')
        invariant
            from <= i <= to <= chars.len(),
            blank_end(chars@, i as int, to as int) == blank_end(chars@, from as int, to as int),
        decreases to - i,
    {
        i += 1;
    }
    i
}

/// The spaces and tabs that the line of `pos` starts with.
fn leading_ws_of_line(chars: &Vec<char>, pos: usize) -> (r: String)
    requires
        pos <= chars.len(),
    ensures
        r@ == line_indent(chars@, pos as int),
{
    let start: usize = find_line_start(chars, pos);
    let end: usize = find_blank_end(chars, start, pos);
    from_chars(chars, start, end)
}

/// The largest indent that a block is rendered at.
pub open spec fn max_indent() -> nat {
    (usize::MAX - 16) as nat
}

/// The indent of the entries of the container at a path: two more than the
/// line on which it opens.
pub open spec fn entry_indent(s: Seq<char>, path: Seq<SegView>) -> Option<nat> {
    match open_at(s, path) {
        Some(open) => {
            let n = line_indent(s, open).len() + 2;
            Some(
                if n <= max_indent() {
                    n
                } else {
                    max_indent()
                },
            )
        },
        None => None,
    }
}

/// The message about a container that was not found.
pub open spec fn no_container(path: Seq<SegView>) -> Seq<char> {
    "cannot locate container at "@ + path_debug(path)
}

/// The indent of the entries of the container at a path.
pub fn container_entry_indent(text: &str, path: &[PathSeg]) -> (r: Result<usize, String>)
    ensures
        r is Ok <==> entry_indent(text@, path_view(path@)) is Some,
        r is Ok ==> entry_indent(text@, path_view(path@)) == Some(r->Ok_0 as nat) && r->Ok_0
            <= max_indent(),
        r is Err ==> r->Err_0@ == no_container(path_view(path@)),
{
    let chars = to_chars(text);
    match scan_chars(&chars).opening(path) {
        Some(open) => {
            proof {
                lemma_bracket_bounds(text@, path_view(path@));
            }
            let start: usize = find_line_start(&chars, open);
            let end: usize = find_blank_end(&chars, start, open);
            let n: usize = end - start;
            assert(line_indent(chars@, open as int).len() == n);
            if n <= usize::MAX - 18 {
                Ok(n + 2)
            } else {
                Ok(usize::MAX - 16)
            }
        },
        None => {
            let mut e = owned("cannot locate container at ");
            e.append(path_text(path).as_str());
            Err(e)
        },
    }
}

/// The indent of the members of the object at a path.
pub fn container_member_indent(text: &str, path: &[PathSeg]) -> (r: Result<usize, String>)
    ensures
        r is Ok <==> entry_indent(text@, path_view(path@)) is Some,
        r is Ok ==> entry_indent(text@, path_view(path@)) == Some(r->Ok_0 as nat) && r->Ok_0
            <= max_indent(),
        r is Err ==> r->Err_0@ == no_container(path_view(path@)),
{
    container_entry_indent(text, path)
}

// ── The last thing in a container ────────────────────────────────────
/// The last significant character from `i` on and before `to`, behind `last`:
/// white space and comments are passed over, and a string counts as a whole.
pub open spec fn last_from(s: Seq<char>, i: int, to: int, last: Option<char>) -> Option<char>
    decreases to - i,
{
    if i < 0 || i >= to || i >= s.len() {
        last
    } else if is_blank(s[i]) {
        last_from(s, i + 1, to, last)
    } else if s[i] == '/' && i + 1 < s.len() && s[i + 1] == '/' {
        let e = line_end(s, i);
        if i < e <= to {
            last_from(s, e, to, last)
        } else {
            last
        }
    } else if s[i] == '/' && i + 1 < s.len() && s[i + 1] == '*' {
        let e = block_end(s, i + 2);
        if i < e <= to {
            last_from(s, e, to, last)
        } else {
            last
        }
    } else if s[i] == '"' {
        let e = string_end(s, i + 1);
        if i < e <= to {
            last_from(s, e, to, Some('"'))
        } else {
            Some('"')
        }
    } else {
        last_from(s, i + 1, to, Some(s[i]))
    }
}

/// The last significant character of a container between its opening bracket
/// at `open` and `i`. There is none in an empty container.
pub open spec fn last_significant(s: Seq<char>, open: int, i: int) -> Option<char> {
    last_from(s, open + 1, i, None)
}

/// The last significant character of a container before `to`.
fn prev_significant(chars: &Vec<char>, open: usize, to: usize) -> (r: Option<char>)
    requires
        to <= chars.len(),
        open < chars.len(),
    ensures
        r == last_significant(chars@, open as int, to as int),
{
    let ghost s = chars@;
    let mut last: Option<char> = None;
    let mut i: usize = open + 1;
    while i < to
        invariant
            i <= chars.len(),
            to <= chars.len(),
            s == chars@,
            last_from(s, i as int, to as int, last) == last_significant(
                s,
                open as int,
                to as int,
            ),
        decreases chars.len() - i,
    {
        let c = chars[i];
        if c == ' ' || c == '\t' || c == '\r' || c == '\n' {
            i += 1;
        } else if c == '/' && chars.len() - i > 1 && chars[i + 1] == '/' {
            let e = find_line_end(chars, i + 1);
            assert(line_end(s, i as int) == line_end(s, i + 1));
            i = e;
        } else if c == '/' && chars.len() - i > 1 && chars[i + 1] == '*' {
            i = find_block_end(chars, i + 2);
        } else if c == '"' {
            i = find_string_end(chars, i + 1);
            last = Some('"');
        } else {
            last = Some(c);
            i += 1;
        }
    }
    last
}

// ── One edit ─────────────────────────────────────────────────────────
/// The text with `block` before the closing bracket at `close` of a container
/// that opens at `open`. A comma goes in front where the last entry has none.
pub open spec fn appended(s: Seq<char>, open: int, close: int, block: Seq<char>) -> Seq<char> {
    match last_significant(s, open, close) {
        None => s.take(close) + seq!['\n'] + block + seq!['\n'] + line_indent(s, close) + s.skip(
            close,
        ),
        Some(c) => if c == ',' {
            s.take(close) + block + seq!['\n'] + s.skip(close)
        } else {
            s.take(close) + seq![',', '\n'] + block + seq!['\n'] + s.skip(close)
        },
    }
}

/// The position behind the line of `pos`, its line break included.
pub open spec fn next_line(s: Seq<char>, pos: int) -> int {
    if line_end(s, pos) < s.len() {
        line_end(s, pos) + 1
    } else {
        s.len() as int
    }
}

/// Appending to the container at a path.
pub open spec fn append_edit(s: Seq<char>, path: Seq<SegView>, block: Seq<char>) -> Result<
    Seq<char>,
    Seq<char>,
> {
    match close_at(s, path) {
        None => Err(no_container(path)),
        Some(close) => match open_at(s, path) {
            None => Err("cannot locate container open at "@ + path_debug(path)),
            Some(open) => Ok(appended(s, open, close, block)),
        },
    }
}

/// Inserting above a member. A member that shares its line with something
/// else makes it an append. The line before gets a comma where its last entry
/// has none.
pub open spec fn insert_edit(
    s: Seq<char>,
    path: Seq<SegView>,
    key: Seq<char>,
    block: Seq<char>,
) -> Result<Seq<char>, Seq<char>> {
    match key_span(s, path, key) {
        None => Err(
            "cannot locate member "@ + debug_quoted(key) + " in "@ + path_debug(path),
        ),
        Some((start, _)) => {
            let ls = line_start(s, start);
            if blank_end(s, ls, start) != start {
                append_edit(s, path, block)
            } else {
                let comma = match open_at(s, path) {
                    Some(open) => match last_significant(s, open, ls) {
                        Some(c) => c != ',',
                        None => false,
                    },
                    None => false,
                };
                if comma {
                    Ok(s.take(ls - 1) + seq![','] + block + seq!['\n'] + s.skip(ls))
                } else {
                    Ok(s.take(ls) + block + seq!['\n'] + s.skip(ls))
                }
            }
        },
    }
}

/// Removing the lines of a member: from the line of its key to the line on
/// which its value ends.
pub open spec fn remove_edit(s: Seq<char>, path: Seq<SegView>, key: Seq<char>) -> Result<
    Seq<char>,
    Seq<char>,
> {
    match key_span(s, path, key) {
        None => Err("cannot locate key "@ + debug_quoted(key) + " in "@ + path_debug(path)),
        Some((start, _)) => match value_span(s, path.push(SegView::Key(key))) {
            None => Err(
                "cannot locate value of "@ + debug_quoted(key) + " in "@ + path_debug(path),
            ),
            Some((_, end)) => Ok(s.take(line_start(s, start)) + s.skip(next_line(s, end))),
        },
    }
}

/// What an edit makes of a text, or why it cannot be done.
pub open spec fn edited(s: Seq<char>, op: EditView) -> Result<Seq<char>, Seq<char>> {
    match op {
        EditView::SetScalar { path, literal } => match value_span(s, path) {
            Some((start, end)) => Ok(s.take(start) + literal + s.skip(end)),
            None => Err("cannot locate value at "@ + path_debug(path)),
        },
        EditView::AppendBlock { path, block } => append_edit(s, path, block),
        EditView::InsertBefore { path, key, block } => insert_edit(s, path, key, block),
        EditView::RemoveKey { path, key } => remove_edit(s, path, key),
        EditView::ReplaceContainer { path, literal } => match open_at(s, path) {
            None => Err(no_container(path)),
            Some(open) => match close_at(s, path) {
                None => Err(no_container(path)),
                Some(close) => Ok(s.take(open) + literal + s.skip(close + 1)),
            },
        },
    }
}

/// The meaning of the result of an edit.
pub open spec fn text_result(r: Result<String, String>) -> Result<Seq<char>, Seq<char>> {
    match r {
        Ok(t) => Ok(t@),
        Err(e) => Err(e@),
    }
}

/// `chars[..a]`, then `mid`, then `chars[b..]`.
fn spliced(chars: &Vec<char>, a: usize, mid: &str, b: usize) -> (r: String)
    requires
        a <= chars.len(),
        b <= chars.len(),
    ensures
        r@ == chars@.take(a as int) + mid@ + chars@.skip(b as int),
{
    let mut out = from_chars(chars, 0, a);
    out.append(mid);
    out.append(from_chars(chars, b, chars.len()).as_str());
    assert(out@ =~= chars@.take(a as int) + mid@ + chars@.skip(b as int));
    out
}

fn not_found(what: &str, path: &[PathSeg]) -> (r: String)
    ensures
        r@ == what@ + path_debug(path_view(path@)),
{
    let mut e = owned(what);
    e.append(path_text(path).as_str());
    e
}

fn member_not_found(what: &str, key: &str, path: &[PathSeg]) -> (r: String)
    ensures
        r@ == what@ + debug_quoted(key@) + " in "@ + path_debug(path_view(path@)),
{
    let mut e = owned(what);
    e.append(debug_string(key).as_str());
    e.append(" in ");
    e.append(path_text(path).as_str());
    e
}

fn apply_append(chars: &Vec<char>, path: &[PathSeg], block: &str) -> (r: Result<String, String>)
    ensures
        text_result(r) == append_edit(chars@, path_view(path@), block@),
{
    let spans = scan_chars(chars);
    let ghost s = chars@;
    proof {
        lemma_bracket_bounds(s, path_view(path@));
    }
    let close: usize = match spans.closing(path) {
        Some(c) => c,
        None => {
            return Err(not_found("cannot locate container at ", path));
        },
    };
    let open: usize = match spans.opening(path) {
        Some(o) => o,
        None => {
            return Err(not_found("cannot locate container open at ", path));
        },
    };
    let mut mid = String::new();
    match prev_significant(chars, open, close) {
        None => {
            mid.push('\n');
            mid.append(block);
            mid.push('\n');
            mid.append(leading_ws_of_line(chars, close).as_str());
        },
        Some(c) => {
            if c != ',' {
                mid.push(',');
                mid.push('\n');
            }
            mid.append(block);
            mid.push('\n');
        },
    }
    let r = spliced(chars, close, mid.as_str(), close);
    assert(r@ =~= appended(s, open as int, close as int, block@));
    Ok(r)
}

fn apply_insert(chars: &Vec<char>, path: &[PathSeg], key: &str, block: &str) -> (r: Result<
    String,
    String,
>)
    ensures
        text_result(r) == insert_edit(chars@, path_view(path@), key@, block@),
{
    let spans = scan_chars(chars);
    let ghost s = chars@;
    let ghost pv = path_view(path@);
    proof {
        lemma_bracket_bounds(s, pv);
        lemma_key_span_bounds(s, pv, key@);
    }
    let start: usize = match spans.key(path, key) {
        Some((a, _)) => a,
        None => {
            return Err(member_not_found("cannot locate member ", key, path));
        },
    };
    let ls: usize = find_line_start(chars, start);
    if find_blank_end(chars, ls, start) != start {
        return apply_append(chars, path, block);
    }
    let comma = match spans.opening(path) {
        Some(open) => match prev_significant(chars, open, ls) {
            Some(c) => {
                proof {
                    lemma_significant_inside(s, open as int, ls as int);
                }
                c != ','
            },
            None => false,
        },
        None => false,
    };
    let mut mid = String::new();
    if comma {
        mid.push(',');
    }
    mid.append(block);
    mid.push('\n');
    let cut: usize = if comma {
        ls - 1
    } else {
        ls
    };
    let r = spliced(chars, cut, mid.as_str(), ls);
    assert(text_result(Ok(r)) =~= insert_edit(s, pv, key@, block@)) by {
        if comma {
            assert(r@ =~= s.take(ls - 1) + seq![','] + block@ + seq!['\n'] + s.skip(ls as int));
        } else {
            assert(r@ =~= s.take(ls as int) + block@ + seq!['\n'] + s.skip(ls as int));
        }
    }
    Ok(r)
}

proof fn lemma_significant_inside(s: Seq<char>, open: int, i: int)
    requires
        0 <= open,
        last_significant(s, open, i) is Some,
    ensures
        open < i,
{
}

fn apply_remove(chars: &Vec<char>, path: &[PathSeg], key: &str) -> (r: Result<String, String>)
    ensures
        text_result(r) == remove_edit(chars@, path_view(path@), key@),
{
    let spans = scan_chars(chars);
    let ghost s = chars@;
    let ghost pv = path_view(path@);
    proof {
        lemma_key_span_bounds(s, pv, key@);
        lemma_value_span_bounds(s, pv.push(SegView::Key(key@)));
    }
    let start: usize = match spans.key(path, key) {
        Some((a, _)) => a,
        None => {
            return Err(member_not_found("cannot locate key ", key, path));
        },
    };
    let member = crate::locate::key_path(path, key);
    let end: usize = match spans.value(member.as_slice()) {
        Some((_, b)) => b,
        None => {
            return Err(member_not_found("cannot locate value of ", key, path));
        },
    };
    let ls: usize = find_line_start(chars, start);
    let mut le: usize = end;
    while le < chars.len() && chars[le] != '\n'
        invariant
            end <= le <= chars.len(),
            line_end(chars@, le as int) == line_end(chars@, end as int),
        decreases chars.len() - le,
    {
        le += 1;
    }
    let next: usize = if le < chars.len() {
        le + 1
    } else {
        le
    };
    let r = spliced(chars, ls, "", next);
    proof {
        reveal_strlit("");
        assert(r@ =~= s.take(ls as int) + s.skip(next as int));
    }
    Ok(r)
}

/// Applies one edit to the text. The result is not checked.
pub fn apply_edit(text: &str, op: &EditOp) -> (r: Result<String, String>)
    ensures
        text_result(r) == edited(text@, op@),
{
    let chars = to_chars(text);
    match op {
        EditOp::SetScalar { path, literal } => {
            proof {
                lemma_value_span_bounds(text@, path_view(path@));
            }
            match scan_chars(&chars).value(path.as_slice()) {
                Some((start, end)) => Ok(spliced(&chars, start, literal.as_str(), end)),
                None => Err(not_found("cannot locate value at ", path.as_slice())),
            }
        },
        EditOp::AppendBlock { path, block } => apply_append(
            &chars,
            path.as_slice(),
            block.as_str(),
        ),
        EditOp::InsertBefore { path, key, block } => apply_insert(
            &chars,
            path.as_slice(),
            key.as_str(),
            block.as_str(),
        ),
        EditOp::RemoveKey { path, key } => apply_remove(&chars, path.as_slice(), key.as_str()),
        EditOp::ReplaceContainer { path, literal } => {
            let spans = scan_chars(&chars);
            proof {
                lemma_bracket_bounds(text@, path_view(path@));
            }
            let open: usize = match spans.opening(path.as_slice()) {
                Some(o) => o,
                None => {
                    return Err(not_found("cannot locate container at ", path.as_slice()));
                },
            };
            let close: usize = match spans.closing(path.as_slice()) {
                Some(c) => c,
                None => {
                    return Err(not_found("cannot locate container at ", path.as_slice()));
                },
            };
            Ok(spliced(&chars, open, literal.as_str(), close + 1))
        },
    }
}

// ── A sequence of edits ──────────────────────────────────────────────
/// The meanings of a list of edits.
pub open spec fn edits_view(v: Seq<EditOp>) -> Seq<EditView> {
    Seq::new(v.len(), |i: int| v[i]@)
}

/// The message about an edit after which the text is no configuration.
pub open spec fn invalid_edit(op: EditView, t: Seq<char>) -> Seq<char> {
    "edit at "@ + path_debug(edit_path(op)) + " produced invalid JSONC ("@ + config_error(t)
        + "); all edits reverted"@
}

/// What the edits from number `i` on make of a text: each applies to the
/// result of the one before, which must be a configuration.
pub open spec fn edited_from(s: Seq<char>, ops: Seq<EditView>, i: int) -> Result<
    Seq<char>,
    Seq<char>,
>
    decreases ops.len() - i,
{
    if i < 0 || i >= ops.len() {
        Ok(s)
    } else {
        match edited(s, ops[i]) {
            Err(e) => Err(e),
            Ok(t) => if config_text(t) is Some {
                edited_from(t, ops, i + 1)
            } else {
                Err(invalid_edit(ops[i], t))
            },
        }
    }
}

/// Applies the edits in turn. A text is returned only where it is a
/// configuration after every one of them.
pub fn apply_edits(text: &str, ops: &[EditOp]) -> (r: Result<String, String>)
    ensures
        text_result(r) == edited_from(text@, edits_view(ops@), 0),
        r is Ok && ops@.len() > 0 ==> config_text(r->Ok_0@) is Some,
{
    let mut current = owned(text);
    let mut i: usize = 0;
    let ghost ov = edits_view(ops@);
    while i < ops.len()
        invariant
            i <= ops.len(),
            ov == edits_view(ops@),
            edited_from(current@, ov, i as int) == edited_from(text@, ov, 0),
            i > 0 ==> config_text(current@) is Some,
        decreases ops.len() - i,
    {
        assert(ov[i as int] == ops@[i as int]@);
        match apply_edit(current.as_str(), &ops[i]) {
            Ok(t) => {
                match parse_jsonc_text(t.as_str()) {
                    Ok(_) => {
                        current = t;
                    },
                    Err(why) => {
                        let mut e = owned("edit at ");
                        e.append(path_text(ops[i].path()).as_str());
                        e.append(" produced invalid JSONC (");
                        e.append(why.as_str());
                        e.append("); all edits reverted");
                        return Err(e);
                    },
                }
            },
            Err(e) => {
                return Err(e);
            },
        }
        i += 1;
    }
    Ok(current)
}

// ── What an edit leaves alone ────────────────────────────────────────
/// Setting a value changes nothing but the value: the text before it and the
/// text behind it, comma and comment included, stay as they are.
pub proof fn lemma_set_scalar_keeps_the_rest(s: Seq<char>, path: Seq<SegView>, literal: Seq<char>)
    requires
        value_span(s, path) is Some,
    ensures
        ({
            let (start, end) = value_span(s, path)->0;
            let t = edited(s, EditView::SetScalar { path, literal })->Ok_0;
            &&& t.take(start) == s.take(start)
            &&& t.subrange(start, start + literal.len()) == literal
            &&& t.skip(start + literal.len()) == s.skip(end)
        }),
{
    lemma_value_span_bounds(s, path);
    let (start, end) = value_span(s, path)->0;
    let t = s.take(start) + literal + s.skip(end);
    assert(t.take(start) =~= s.take(start));
    assert(t.subrange(start, start + literal.len()) =~= literal);
    assert(t.skip(start + literal.len()) =~= s.skip(end));
}

/// Setting a value to the text that it has changes nothing at all.
pub proof fn lemma_set_scalar_to_itself(s: Seq<char>, path: Seq<SegView>)
    requires
        value_span(s, path) is Some,
    ensures
        ({
            let (start, end) = value_span(s, path)->0;
            edited(s, EditView::SetScalar { path, literal: s.subrange(start, end) }) == Ok::<
                Seq<char>,
                Seq<char>,
            >(s)
        }),
{
    lemma_value_span_bounds(s, path);
    let (start, end) = value_span(s, path)->0;
    assert(s.take(start) + s.subrange(start, end) + s.skip(end) =~= s);
}

/// Appending a block keeps all of the text: what stood before the closing
/// bracket still comes first, and the bracket and what follows it last.
pub proof fn lemma_append_keeps_all(s: Seq<char>, path: Seq<SegView>, block: Seq<char>)
    requires
        close_at(s, path) is Some,
        open_at(s, path) is Some,
    ensures
        ({
            let close = close_at(s, path)->0;
            let t = edited(s, EditView::AppendBlock { path, block })->Ok_0;
            &&& t.take(close) == s.take(close)
            &&& t.len() >= s.len() + block.len()
            &&& t.skip(t.len() - (s.len() - close)) == s.skip(close)
        }),
{
    lemma_bracket_bounds(s, path);
    let close = close_at(s, path)->0;
    let open = open_at(s, path)->0;
    let t = appended(s, open, close, block);
    assert(t.take(close) =~= s.take(close));
    assert(t.skip(t.len() - (s.len() - close)) =~= s.skip(close));
}

/// Removing a member keeps the lines above it and the lines below it.
pub proof fn lemma_remove_keeps_other_lines(s: Seq<char>, path: Seq<SegView>, key: Seq<char>)
    requires
        key_span(s, path, key) is Some,
        value_span(s, path.push(SegView::Key(key))) is Some,
    ensures
        ({
            let above = line_start(s, key_span(s, path, key).unwrap().0);
            let below = next_line(s, value_span(s, path.push(SegView::Key(key))).unwrap().1);
            edited(s, EditView::RemoveKey { path, key }) == Ok::<Seq<char>, Seq<char>>(
                s.take(above) + s.skip(below),
            )
        }),
{
}

/// No edits, no change.
pub proof fn lemma_no_edits(s: Seq<char>)
    ensures
        edited_from(s, Seq::empty(), 0) == Ok::<Seq<char>, Seq<char>>(s),
{
}

/// A text that comes out of a sequence of edits is a configuration: edits
/// never turn a valid file into an invalid one.
pub proof fn lemma_edits_stay_valid(s: Seq<char>, ops: Seq<EditView>, i: int)
    requires
        0 <= i <= ops.len(),
        config_text(s) is Some,
        edited_from(s, ops, i) is Ok,
    ensures
        config_text(edited_from(s, ops, i)->Ok_0) is Some,
    decreases ops.len() - i,
{
    if i < ops.len() {
        lemma_edits_stay_valid(edited(s, ops[i])->Ok_0, ops, i + 1);
    }
}

} // verus!
