//! The target configuration: its sections, their meaning, and how they are
//! read from a document.
//!
//! Hosts hold their boards. A board's own section overrides the section of
//! the same name at the top level.
use crate::jsonc::{
    document, items_view, json_view, lemma_items_view, lemma_members_view, members_view,
    parse_jsonc_value, Json, JsonView,
};
use crate::number::{
    decimal, decimal_text, parse_real, parse_unsigned, real_value, unsigned, Real, RealView,
};
use crate::text::{copy_opt, copy_texts, lemma_texts_push, opt_text, owned, same, texts};
use vstd::prelude::*;

verus! {

/// The name of the configuration file.
pub const CONFIG_FILE_NAME: &'static str = ".target.jsonc";

/// A scalar that may be written as a number or as a text.
#[derive(Clone, Debug, PartialEq)]
pub enum NumberOrString {
    Int(u64),
    /// A number with a fraction or an exponent, by its normal text.
    Float(String),
    String(String),
}

/// The meaning of a [`NumberOrString`].
pub enum NumberView {
    Int(nat),
    Float(Seq<char>),
    Text(Seq<char>),
}

impl View for NumberOrString {
    type V = NumberView;

    open spec fn view(&self) -> NumberView {
        match self {
            NumberOrString::Int(n) => NumberView::Int(*n as nat),
            NumberOrString::Float(t) => NumberView::Float(t@),
            NumberOrString::String(t) => NumberView::Text(t@),
        }
    }
}

/// The plain text of the scalar.
pub open spec fn value_text(v: NumberView) -> Seq<char> {
    match v {
        NumberView::Int(n) => decimal(n),
        NumberView::Float(t) => t,
        NumberView::Text(t) => t,
    }
}

impl NumberOrString {
    /// The plain text of the scalar.
    pub fn to_value_string(&self) -> (r: String)
        ensures
            r@ == value_text(self@),
    {
        match self {
            NumberOrString::Int(n) => decimal_text(*n),
            NumberOrString::Float(t) => owned(t.as_str()),
            NumberOrString::String(t) => owned(t.as_str()),
        }
    }

    /// A copy of the value.
    pub fn copy(&self) -> (r: Self)
        ensures
            r@ == self@,
    {
        match self {
            NumberOrString::Int(n) => NumberOrString::Int(*n),
            NumberOrString::Float(t) => NumberOrString::Float(owned(t.as_str())),
            NumberOrString::String(t) => NumberOrString::String(owned(t.as_str())),
        }
    }
}

/// The meaning of an optional scalar.
pub open spec fn opt_number(o: Option<NumberOrString>) -> Option<NumberView> {
    match o {
        Some(x) => Some(x@),
        None => None,
    }
}

/// The meaning of an optional real number.
pub open spec fn opt_real(o: Option<Real>) -> Option<RealView> {
    match o {
        Some(x) => Some(x@),
        None => None,
    }
}

/// The meaning of an optional list of texts.
pub open spec fn opt_texts(o: Option<Vec<String>>) -> Option<Seq<Seq<char>>> {
    match o {
        Some(v) => Some(texts(v@)),
        None => None,
    }
}

/// The meaning of an optional JSON value.
pub open spec fn opt_json(o: Option<Json>) -> Option<JsonView> {
    match o {
        Some(j) => Some(j@),
        None => None,
    }
}

/// The meaning of an optional reference to a JSON value.
pub open spec fn ref_json(o: Option<&Json>) -> Option<JsonView> {
    match o {
        Some(j) => Some(j@),
        None => None,
    }
}

fn copy_opt_number(o: &Option<NumberOrString>) -> (r: Option<NumberOrString>)
    ensures
        opt_number(r) == opt_number(*o),
{
    match o {
        Some(x) => Some(x.copy()),
        None => None,
    }
}

fn copy_opt_real(o: &Option<Real>) -> (r: Option<Real>)
    ensures
        opt_real(r) == opt_real(*o),
{
    match o {
        Some(x) => Some(Real { text: owned(x.text.as_str()), sign: x.sign }),
        None => None,
    }
}

fn copy_opt_texts(o: &Option<Vec<String>>) -> (r: Option<Vec<String>>)
    ensures
        opt_texts(r) == opt_texts(*o),
{
    match o {
        Some(v) => Some(copy_texts(v)),
        None => None,
    }
}

fn copy_json(j: &Json) -> (r: Json)
    ensures
        r@ == j@,
    decreases j,
{
    match j {
        Json::Null => Json::Null,
        Json::Bool(b) => Json::Bool(*b),
        Json::Number(t) => Json::Number(owned(t.as_str())),
        Json::Text(t) => Json::Text(owned(t.as_str())),
        Json::Array(v) => {
            let mut out: Vec<Json> = Vec::new();
            let mut i: usize = 0;
            while i < v.len()
                invariant
                    i <= v.len(),
                    out@.len() == i,
                    j == Json::Array(*v),
                    forall|k: int|
                        0 <= k < i ==> json_view(#[trigger] out@[k]) == json_view(v@[k]),
                decreases v.len() - i,
            {
                assert(decreases_to!(j => j->Array_0@));
                assert(decreases_to!(v@ => v@[i as int]));
                out.push(copy_json(&v[i]));
                i += 1;
            }
            proof {
                lemma_items_view(v@);
                lemma_items_view(out@);
                assert(items_view(out@) =~= items_view(v@));
            }
            Json::Array(out)
        },
        Json::Object(m) => {
            let mut out: Vec<(String, Json)> = Vec::new();
            let mut i: usize = 0;
            while i < m.len()
                invariant
                    i <= m.len(),
                    out@.len() == i,
                    j == Json::Object(*m),
                    forall|k: int|
                        0 <= k < i ==> (#[trigger] out@[k]).0@ == m@[k].0@ && json_view(out@[k].1)
                            == json_view(m@[k].1),
                decreases m.len() - i,
            {
                assert(decreases_to!(j => j->Object_0@));
                assert(decreases_to!(m@ => m@[i as int]));
                assert(decreases_to!(m@[i as int] => m@[i as int].1));
                out.push((owned(m[i].0.as_str()), copy_json(&m[i].1)));
                i += 1;
            }
            proof {
                lemma_members_view(m@);
                lemma_members_view(out@);
                assert(members_view(out@) =~= members_view(m@));
            }
            Json::Object(out)
        },
    }
}

fn copy_opt_json(o: &Option<Json>) -> (r: Option<Json>)
    ensures
        opt_json(r) == opt_json(*o),
{
    match o {
        Some(j) => Some(copy_json(j)),
        None => None,
    }
}

// ── Reading members ──────────────────────────────────────────────────
/// The first member of a name, from member `i` on.
pub open spec fn member_from(m: Seq<(Seq<char>, JsonView)>, name: Seq<char>, i: int) -> Option<
    JsonView,
>
    decreases m.len() - i,
{
    if i < 0 || i >= m.len() {
        None
    } else if m[i].0 == name {
        Some(m[i].1)
    } else {
        member_from(m, name, i + 1)
    }
}

/// The member of a name.
pub open spec fn member(m: Seq<(Seq<char>, JsonView)>, name: Seq<char>) -> Option<JsonView> {
    member_from(m, name, 0)
}

/// The member of either of two names.
pub open spec fn either(m: Seq<(Seq<char>, JsonView)>, name: Seq<char>, other: Seq<char>) -> Option<
    JsonView,
> {
    match member(m, name) {
        Some(j) => Some(j),
        None => member(m, other),
    }
}

/// The meanings of a list of names.
pub open spec fn strs(v: Seq<&str>) -> Seq<Seq<char>> {
    Seq::new(v.len(), |i: int| v[i]@)
}

/// Every member has one of the names, and no name occurs twice.
pub open spec fn only(m: Seq<(Seq<char>, JsonView)>, names: Seq<Seq<char>>) -> bool {
    &&& forall|i: int| 0 <= i < m.len() ==> names.contains((#[trigger] m[i]).0)
    &&& forall|i: int, j: int|
        0 <= i < j < m.len() ==> (#[trigger] m[i]).0 != (#[trigger] m[j]).0
}

fn find<'a>(m: &'a Vec<(String, Json)>, name: &str) -> (r: Option<&'a Json>)
    ensures
        ref_json(r) == member(members_view(m@), name@),
{
    let ghost views = members_view(m@);
    proof {
        lemma_members_view(m@);
    }
    let mut i: usize = 0;
    while i < m.len()
        invariant
            i <= m.len(),
            views == members_view(m@),
            views.len() == m@.len(),
            forall|k: int|
                0 <= k < m@.len() ==> #[trigger] views[k] == (m@[k].0@, json_view(m@[k].1)),
            member_from(views, name@, i as int) == member_from(views, name@, 0),
        decreases m.len() - i,
    {
        assert(views[i as int] == (m@[i as int].0@, json_view(m@[i as int].1)));
        if same(m[i].0.as_str(), name) {
            return Some(&m[i].1);
        }
        i += 1;
    }
    None
}

fn find_either<'a>(m: &'a Vec<(String, Json)>, name: &str, other: &str) -> (r: Option<&'a Json>)
    ensures
        ref_json(r) == either(members_view(m@), name@, other@),
{
    match find(m, name) {
        Some(j) => Some(j),
        None => find(m, other),
    }
}

/// Whether a list of names holds a given name.
pub fn has_name(names: &Vec<&str>, s: &str) -> (r: bool)
    ensures
        r == strs(names@).contains(s@),
{
    let mut i: usize = 0;
    while i < names.len()
        invariant
            i <= names.len(),
            forall|k: int| 0 <= k < i ==> (#[trigger] names@[k])@ != s@,
        decreases names.len() - i,
    {
        if same(names[i], s) {
            assert(strs(names@)[i as int] == s@);
            return true;
        }
        i += 1;
    }
    assert forall|k: int| 0 <= k < strs(names@).len() implies strs(names@)[k] != s@ by {
        assert(names@[k]@ != s@);
    }
    false
}

fn only_members(m: &Vec<(String, Json)>, names: &Vec<&str>) -> (r: bool)
    ensures
        r == only(members_view(m@), strs(names@)),
{
    let ghost views = members_view(m@);
    proof {
        lemma_members_view(m@);
    }
    let mut i: usize = 0;
    while i < m.len()
        invariant
            i <= m.len(),
            views.len() == m@.len(),
            views == members_view(m@),
            forall|k: int|
                0 <= k < m@.len() ==> #[trigger] views[k] == (m@[k].0@, json_view(m@[k].1)),
            forall|k: int| 0 <= k < i ==> strs(names@).contains((#[trigger] views[k]).0),
            forall|k: int, l: int|
                0 <= k < l < i ==> (#[trigger] views[k]).0 != (#[trigger] views[l]).0,
        decreases m.len() - i,
    {
        assert(views[i as int].0 == m@[i as int].0@);
        if !has_name(names, m[i].0.as_str()) {
            return false;
        }
        let mut k: usize = 0;
        while k < i
            invariant
                k <= i < m.len(),
                views.len() == m@.len(),
                views == members_view(m@),
                views[i as int].0 == m@[i as int].0@,
                forall|l: int|
                    0 <= l < m@.len() ==> #[trigger] views[l] == (m@[l].0@, json_view(m@[l].1)),
                forall|l: int| 0 <= l < k ==> (#[trigger] views[l]).0 != views[i as int].0,
            decreases i - k,
        {
            assert(views[k as int].0 == m@[k as int].0@);
            if same(m[k].0.as_str(), m[i].0.as_str()) {
                return false;
            }
            k += 1;
        }
        i += 1;
    }
    true
}

/// An optional text.
pub open spec fn text_value(o: Option<JsonView>) -> Option<Option<Seq<char>>> {
    match o {
        None => Some(None),
        Some(JsonView::Null) => Some(None),
        Some(JsonView::Text(t)) => Some(Some(t)),
        _ => None,
    }
}

fn read_text(o: Option<&Json>) -> (r: Option<Option<String>>)
    ensures
        r is Some <==> text_value(ref_json(o)) is Some,
        r is Some ==> text_value(ref_json(o)) == Some(opt_text(r->0)),
{
    match o {
        None => Some(None),
        Some(Json::Null) => Some(None),
        Some(Json::Text(t)) => Some(Some(owned(t.as_str()))),
        _ => None,
    }
}

/// A text that must be there.
pub open spec fn name_value(o: Option<JsonView>) -> Option<Seq<char>> {
    match o {
        Some(JsonView::Text(t)) => Some(t),
        _ => None,
    }
}

fn read_name(o: Option<&Json>) -> (r: Option<String>)
    ensures
        r is Some <==> name_value(ref_json(o)) is Some,
        r is Some ==> name_value(ref_json(o)) == Some(r->0@),
{
    match o {
        Some(Json::Text(t)) => Some(owned(t.as_str())),
        _ => None,
    }
}

/// An optional truth value.
pub open spec fn bool_value(o: Option<JsonView>) -> Option<Option<bool>> {
    match o {
        None => Some(None),
        Some(JsonView::Null) => Some(None),
        Some(JsonView::Bool(b)) => Some(Some(b)),
        _ => None,
    }
}

fn read_bool(o: Option<&Json>) -> (r: Option<Option<bool>>)
    ensures
        r == bool_value(ref_json(o)),
{
    match o {
        None => Some(None),
        Some(Json::Null) => Some(None),
        Some(Json::Bool(b)) => Some(Some(*b)),
        _ => None,
    }
}

/// An optional whole number of at most `max`.
pub open spec fn whole_value(o: Option<JsonView>, max: nat) -> Option<Option<nat>> {
    match o {
        None => Some(None),
        Some(JsonView::Null) => Some(None),
        Some(JsonView::Number(t)) => match unsigned(t, max) {
            Some(n) => Some(Some(n)),
            None => None,
        },
        _ => None,
    }
}

fn read_whole(o: Option<&Json>, max: u64) -> (r: Option<Option<u64>>)
    ensures
        r is Some <==> whole_value(ref_json(o), max as nat) is Some,
        r is Some ==> whole_value(ref_json(o), max as nat) == Some(
            match r->0 {
                Some(n) => Some(n as nat),
                None => None,
            },
        ),
        r matches Some(Some(n)) ==> n <= max,
{
    match o {
        None => Some(None),
        Some(Json::Null) => Some(None),
        Some(Json::Number(t)) => match parse_unsigned(t.as_str(), max) {
            Some(n) => Some(Some(n)),
            None => None,
        },
        _ => None,
    }
}

/// An optional whole number of 64 bits.
pub open spec fn u64_value(o: Option<JsonView>) -> Option<Option<u64>> {
    match whole_value(o, u64::MAX as nat) {
        Some(Some(n)) => Some(Some(n as u64)),
        Some(None) => Some(None),
        None => None,
    }
}

fn read_u64(o: Option<&Json>) -> (r: Option<Option<u64>>)
    ensures
        r == u64_value(ref_json(o)),
{
    read_whole(o, u64::MAX)
}

/// An optional whole number of 16 bits.
pub open spec fn u16_value(o: Option<JsonView>) -> Option<Option<u16>> {
    match whole_value(o, u16::MAX as nat) {
        Some(Some(n)) => Some(Some(n as u16)),
        Some(None) => Some(None),
        None => None,
    }
}

fn read_u16(o: Option<&Json>) -> (r: Option<Option<u16>>)
    ensures
        r == u16_value(ref_json(o)),
{
    match read_whole(o, 65535) {
        Some(Some(n)) => Some(Some(n as u16)),
        Some(None) => Some(None),
        None => None,
    }
}

/// An optional whole number of 8 bits.
pub open spec fn u8_value(o: Option<JsonView>) -> Option<Option<u8>> {
    match whole_value(o, u8::MAX as nat) {
        Some(Some(n)) => Some(Some(n as u8)),
        Some(None) => Some(None),
        None => None,
    }
}

fn read_u8(o: Option<&Json>) -> (r: Option<Option<u8>>)
    ensures
        r == u8_value(ref_json(o)),
{
    match read_whole(o, 255) {
        Some(Some(n)) => Some(Some(n as u8)),
        Some(None) => Some(None),
        None => None,
    }
}

/// An optional number or text.
pub open spec fn number_value(o: Option<JsonView>) -> Option<Option<NumberView>> {
    match o {
        None => Some(None),
        Some(JsonView::Null) => Some(None),
        Some(JsonView::Text(t)) => Some(Some(NumberView::Text(t))),
        Some(JsonView::Number(t)) => match unsigned(t, u64::MAX as nat) {
            Some(n) => Some(Some(NumberView::Int(n))),
            None => match real_value(t) {
                Some(x) => Some(Some(NumberView::Float(x.text))),
                None => None,
            },
        },
        _ => None,
    }
}

fn read_number(o: Option<&Json>) -> (r: Option<Option<NumberOrString>>)
    ensures
        r is Some <==> number_value(ref_json(o)) is Some,
        r is Some ==> number_value(ref_json(o)) == Some(opt_number(r->0)),
{
    match o {
        None => Some(None),
        Some(Json::Null) => Some(None),
        Some(Json::Text(t)) => Some(Some(NumberOrString::String(owned(t.as_str())))),
        Some(Json::Number(t)) => match parse_unsigned(t.as_str(), u64::MAX) {
            Some(n) => Some(Some(NumberOrString::Int(n))),
            None => match parse_real(t.as_str()) {
                Some(x) => Some(Some(NumberOrString::Float(x.text))),
                None => None,
            },
        },
        _ => None,
    }
}

/// An optional real number.
pub open spec fn real_value_of(o: Option<JsonView>) -> Option<Option<RealView>> {
    match o {
        None => Some(None),
        Some(JsonView::Null) => Some(None),
        Some(JsonView::Number(t)) => match real_value(t) {
            Some(x) => Some(Some(x)),
            None => None,
        },
        _ => None,
    }
}

fn read_real(o: Option<&Json>) -> (r: Option<Option<Real>>)
    ensures
        r is Some <==> real_value_of(ref_json(o)) is Some,
        r is Some ==> real_value_of(ref_json(o)) == Some(opt_real(r->0)),
{
    match o {
        None => Some(None),
        Some(Json::Null) => Some(None),
        Some(Json::Number(t)) => match parse_real(t.as_str()) {
            Some(x) => Some(Some(x)),
            None => None,
        },
        _ => None,
    }
}

/// The texts from element `i` on, behind those in `before`.
pub open spec fn texts_from(v: Seq<JsonView>, i: int, before: Seq<Seq<char>>) -> Option<
    Seq<Seq<char>>,
>
    decreases v.len() - i,
{
    if i < 0 || i >= v.len() {
        Some(before)
    } else {
        match v[i] {
            JsonView::Text(t) => texts_from(v, i + 1, before.push(t)),
            _ => None,
        }
    }
}

/// An optional list of texts.
pub open spec fn texts_value(o: Option<JsonView>) -> Option<Option<Seq<Seq<char>>>> {
    match o {
        None => Some(None),
        Some(JsonView::Null) => Some(None),
        Some(JsonView::Array(v)) => match texts_from(v, 0, Seq::empty()) {
            Some(t) => Some(Some(t)),
            None => None,
        },
        _ => None,
    }
}

fn read_texts(o: Option<&Json>) -> (r: Option<Option<Vec<String>>>)
    ensures
        r is Some <==> texts_value(ref_json(o)) is Some,
        r is Some ==> texts_value(ref_json(o)) == Some(opt_texts(r->0)),
{
    match o {
        None => Some(None),
        Some(Json::Null) => Some(None),
        Some(Json::Array(v)) => {
            let mut out: Vec<String> = Vec::new();
            let ghost views = items_view(v@);
            proof {
                lemma_items_view(v@);
            }
            assert(texts(out@) =~= Seq::empty());
            let mut i: usize = 0;
            while i < v.len()
                invariant
                    i <= v.len(),
                    views.len() == v@.len(),
                    forall|k: int| 0 <= k < v@.len() ==> #[trigger] views[k] == json_view(v@[k]),
                    ref_json(o) == Some(JsonView::Array(views)),
                    texts_from(views, i as int, texts(out@)) == texts_from(views, 0, Seq::empty()),
                decreases v.len() - i,
            {
                broadcast use lemma_texts_push;

                assert(views[i as int] == json_view(v@[i as int]));
                match &v[i] {
                    Json::Text(t) => {
                        out.push(owned(t.as_str()));
                    },
                    _ => {
                        return None;
                    },
                }
                i += 1;
            }
            Some(Some(out))
        },
        _ => None,
    }
}

/// An optional value of any kind.
pub open spec fn json_value(o: Option<JsonView>) -> Option<Option<JsonView>> {
    match o {
        None => Some(None),
        Some(JsonView::Null) => Some(None),
        Some(j) => Some(Some(j)),
    }
}

fn read_json(o: Option<&Json>) -> (r: Option<Option<Json>>)
    ensures
        r is Some <==> json_value(ref_json(o)) is Some,
        r is Some ==> json_value(ref_json(o)) == Some(opt_json(r->0)),
{
    match o {
        None => Some(None),
        Some(Json::Null) => Some(None),
        Some(j) => Some(Some(copy_json(j))),
    }
}

// ── Sections ─────────────────────────────────────────────────────────

/// The serial link of a board.
#[derive(Debug, PartialEq)]
pub struct JsoncSerial {
    pub port: Option<NumberOrString>,
    pub baudrate: Option<NumberOrString>,
    pub rfc2217: Option<bool>,
    pub tx_repeat: Option<u64>,
    pub tx_gap_ms: Option<u64>,
    pub backspace: Option<String>,
    pub enter: Option<String>,
    pub rx_newline: Option<String>,
    pub highlight: Option<bool>,
    pub mouse: Option<bool>,
}

/// The meaning of a [`JsoncSerial`].
#[verifier::ext_equal]
pub struct SerialView {
    pub port: Option<NumberView>,
    pub baudrate: Option<NumberView>,
    pub rfc2217: Option<bool>,
    pub tx_repeat: Option<u64>,
    pub tx_gap_ms: Option<u64>,
    pub backspace: Option<Seq<char>>,
    pub enter: Option<Seq<char>>,
    pub rx_newline: Option<Seq<char>>,
    pub highlight: Option<bool>,
    pub mouse: Option<bool>,
}

impl View for JsoncSerial {
    type V = SerialView;

    open spec fn view(&self) -> SerialView {
        SerialView {
            port: opt_number(self.port),
            baudrate: opt_number(self.baudrate),
            rfc2217: self.rfc2217,
            tx_repeat: self.tx_repeat,
            tx_gap_ms: self.tx_gap_ms,
            backspace: opt_text(self.backspace),
            enter: opt_text(self.enter),
            rx_newline: opt_text(self.rx_newline),
            highlight: self.highlight,
            mouse: self.mouse,
        }
    }
}

/// Nothing set.
pub open spec fn no_serial() -> SerialView {
    SerialView {
        port: None,
        baudrate: None,
        rfc2217: None,
        tx_repeat: None,
        tx_gap_ms: None,
        backspace: None,
        enter: None,
        rx_newline: None,
        highlight: None,
        mouse: None,
    }
}

impl Default for JsoncSerial {
    fn default() -> (r: Self)
        ensures
            r@ == no_serial(),
    {
        let r = JsoncSerial {
            port: None,
            baudrate: None,
            rfc2217: None,
            tx_repeat: None,
            tx_gap_ms: None,
            backspace: None,
            enter: None,
            rx_newline: None,
            highlight: None,
            mouse: None,
        };
        assert(r@ =~= no_serial());
        r
    }
}

impl JsoncSerial {
    /// A copy of the value.
    pub fn copy(&self) -> (r: Self)
        ensures
            r@ == self@,
    {
        let r = JsoncSerial {
            port: copy_opt_number(&self.port),
            baudrate: copy_opt_number(&self.baudrate),
            rfc2217: self.rfc2217,
            tx_repeat: self.tx_repeat,
            tx_gap_ms: self.tx_gap_ms,
            backspace: copy_opt(&self.backspace),
            enter: copy_opt(&self.enter),
            rx_newline: copy_opt(&self.rx_newline),
            highlight: self.highlight,
            mouse: self.mouse,
        };
        assert(r@ =~= self@);
        r
    }
}

/// The member names that may stand in it.
pub open spec fn serial_keys() -> Seq<Seq<char>> {
    seq!["port"@, "baudrate"@, "rfc2217"@, "tx_repeat"@, "tx_gap_ms"@, "backspace"@, "enter"@, "rx_newline"@, "highlight"@, "mouse"@]
}

/// What an object holds. There is nothing where a member is unknown, occurs
/// twice or has the wrong type.
pub open spec fn serial_of(j: JsonView) -> Option<SerialView> {
    match j {
        JsonView::Object(m) => {
            if only(m, serial_keys())
                && number_value(member(m, "port"@)) is Some
                && number_value(member(m, "baudrate"@)) is Some
                && bool_value(member(m, "rfc2217"@)) is Some
                && u64_value(member(m, "tx_repeat"@)) is Some
                && u64_value(member(m, "tx_gap_ms"@)) is Some
                && text_value(member(m, "backspace"@)) is Some
                && text_value(member(m, "enter"@)) is Some
                && text_value(member(m, "rx_newline"@)) is Some
                && bool_value(member(m, "highlight"@)) is Some
                && bool_value(member(m, "mouse"@)) is Some {
                Some(
                    SerialView {
                        port: number_value(member(m, "port"@))->0,
                        baudrate: number_value(member(m, "baudrate"@))->0,
                        rfc2217: bool_value(member(m, "rfc2217"@))->0,
                        tx_repeat: u64_value(member(m, "tx_repeat"@))->0,
                        tx_gap_ms: u64_value(member(m, "tx_gap_ms"@))->0,
                        backspace: text_value(member(m, "backspace"@))->0,
                        enter: text_value(member(m, "enter"@))->0,
                        rx_newline: text_value(member(m, "rx_newline"@))->0,
                        highlight: bool_value(member(m, "highlight"@))->0,
                        mouse: bool_value(member(m, "mouse"@))->0,
                    },
                )
            } else {
                None
            }
        },
        _ => None,
    }
}

/// An optional section.
pub open spec fn serial_value(o: Option<JsonView>) -> Option<Option<SerialView>> {
    match o {
        None => Some(None),
        Some(JsonView::Null) => Some(None),
        Some(j) => match serial_of(j) {
            Some(x) => Some(Some(x)),
            None => None,
        },
    }
}

fn serial_from(j: &Json) -> (r: Option<JsoncSerial>)
    ensures
        r is Some <==> serial_of(j@) is Some,
        r is Some ==> serial_of(j@) == Some(r->0@),
{
    match j {
        Json::Object(m) => {
            let names: Vec<&str> = vec!["port", "baudrate", "rfc2217", "tx_repeat", "tx_gap_ms", "backspace", "enter", "rx_newline", "highlight", "mouse"];
            assert(strs(names@) =~= serial_keys());
            if !only_members(m, &names) {
                return None;
            }
            let port = match read_number(find(m, "port")) {
                Some(x) => x,
                None => {
                    return None;
                },
            };
            let baudrate = match read_number(find(m, "baudrate")) {
                Some(x) => x,
                None => {
                    return None;
                },
            };
            let rfc2217 = match read_bool(find(m, "rfc2217")) {
                Some(x) => x,
                None => {
                    return None;
                },
            };
            let tx_repeat = match read_u64(find(m, "tx_repeat")) {
                Some(x) => x,
                None => {
                    return None;
                },
            };
            let tx_gap_ms = match read_u64(find(m, "tx_gap_ms")) {
                Some(x) => x,
                None => {
                    return None;
                },
            };
            let backspace = match read_text(find(m, "backspace")) {
                Some(x) => x,
                None => {
                    return None;
                },
            };
            let enter = match read_text(find(m, "enter")) {
                Some(x) => x,
                None => {
                    return None;
                },
            };
            let rx_newline = match read_text(find(m, "rx_newline")) {
                Some(x) => x,
                None => {
                    return None;
                },
            };
            let highlight = match read_bool(find(m, "highlight")) {
                Some(x) => x,
                None => {
                    return None;
                },
            };
            let mouse = match read_bool(find(m, "mouse")) {
                Some(x) => x,
                None => {
                    return None;
                },
            };
            let r = JsoncSerial { port, baudrate, rfc2217, tx_repeat, tx_gap_ms, backspace, enter, rx_newline, highlight, mouse };
            assert(r@ =~= serial_of(j@)->0);
            Some(r)
        },
        _ => None,
    }
}

fn read_serial(o: Option<&Json>) -> (r: Option<Option<JsoncSerial>>)
    ensures
        r is Some <==> serial_value(ref_json(o)) is Some,
        r is Some ==> serial_value(ref_json(o)) == Some(
            match r->0 {
                Some(x) => Some(x@),
                None => None,
            },
        ),
{
    match o {
        None => Some(None),
        Some(Json::Null) => Some(None),
        Some(j) => match serial_from(j) {
            Some(x) => Some(Some(x)),
            None => None,
        },
    }
}

/// How to log in on a board.
#[derive(Debug, PartialEq)]
pub struct JsoncTarget {
    pub login_user: Option<String>,
    pub login_pass: Option<String>,
    pub login_prompt: Option<String>,
}

/// The meaning of a [`JsoncTarget`].
#[verifier::ext_equal]
pub struct TargetView {
    pub login_user: Option<Seq<char>>,
    pub login_pass: Option<Seq<char>>,
    pub login_prompt: Option<Seq<char>>,
}

impl View for JsoncTarget {
    type V = TargetView;

    open spec fn view(&self) -> TargetView {
        TargetView {
            login_user: opt_text(self.login_user),
            login_pass: opt_text(self.login_pass),
            login_prompt: opt_text(self.login_prompt),
        }
    }
}

/// Nothing set.
pub open spec fn no_target() -> TargetView {
    TargetView {
        login_user: None,
        login_pass: None,
        login_prompt: None,
    }
}

impl Default for JsoncTarget {
    fn default() -> (r: Self)
        ensures
            r@ == no_target(),
    {
        let r = JsoncTarget {
            login_user: None,
            login_pass: None,
            login_prompt: None,
        };
        assert(r@ =~= no_target());
        r
    }
}

impl JsoncTarget {
    /// A copy of the value.
    pub fn copy(&self) -> (r: Self)
        ensures
            r@ == self@,
    {
        let r = JsoncTarget {
            login_user: copy_opt(&self.login_user),
            login_pass: copy_opt(&self.login_pass),
            login_prompt: copy_opt(&self.login_prompt),
        };
        assert(r@ =~= self@);
        r
    }
}

/// The member names that may stand in it.
pub open spec fn target_keys() -> Seq<Seq<char>> {
    seq!["login_user"@, "login_pass"@, "login_prompt"@]
}

/// What an object holds. There is nothing where a member is unknown, occurs
/// twice or has the wrong type.
pub open spec fn target_of(j: JsonView) -> Option<TargetView> {
    match j {
        JsonView::Object(m) => {
            if only(m, target_keys())
                && text_value(member(m, "login_user"@)) is Some
                && text_value(member(m, "login_pass"@)) is Some
                && text_value(member(m, "login_prompt"@)) is Some {
                Some(
                    TargetView {
                        login_user: text_value(member(m, "login_user"@))->0,
                        login_pass: text_value(member(m, "login_pass"@))->0,
                        login_prompt: text_value(member(m, "login_prompt"@))->0,
                    },
                )
            } else {
                None
            }
        },
        _ => None,
    }
}

/// An optional section.
pub open spec fn target_value(o: Option<JsonView>) -> Option<Option<TargetView>> {
    match o {
        None => Some(None),
        Some(JsonView::Null) => Some(None),
        Some(j) => match target_of(j) {
            Some(x) => Some(Some(x)),
            None => None,
        },
    }
}

fn target_from(j: &Json) -> (r: Option<JsoncTarget>)
    ensures
        r is Some <==> target_of(j@) is Some,
        r is Some ==> target_of(j@) == Some(r->0@),
{
    match j {
        Json::Object(m) => {
            let names: Vec<&str> = vec!["login_user", "login_pass", "login_prompt"];
            assert(strs(names@) =~= target_keys());
            if !only_members(m, &names) {
                return None;
            }
            let login_user = match read_text(find(m, "login_user")) {
                Some(x) => x,
                None => {
                    return None;
                },
            };
            let login_pass = match read_text(find(m, "login_pass")) {
                Some(x) => x,
                None => {
                    return None;
                },
            };
            let login_prompt = match read_text(find(m, "login_prompt")) {
                Some(x) => x,
                None => {
                    return None;
                },
            };
            let r = JsoncTarget { login_user, login_pass, login_prompt };
            assert(r@ =~= target_of(j@)->0);
            Some(r)
        },
        _ => None,
    }
}

fn read_target(o: Option<&Json>) -> (r: Option<Option<JsoncTarget>>)
    ensures
        r is Some <==> target_value(ref_json(o)) is Some,
        r is Some ==> target_value(ref_json(o)) == Some(
            match r->0 {
                Some(x) => Some(x@),
                None => None,
            },
        ),
{
    match o {
        None => Some(None),
        Some(Json::Null) => Some(None),
        Some(j) => match target_from(j) {
            Some(x) => Some(Some(x)),
            None => None,
        },
    }
}

/// How to stop a board in its boot loader.
#[derive(Debug, PartialEq)]
pub struct JsoncUboot {
    pub interrupt_char: Option<String>,
    pub interrupt_strategy: Option<String>,
    pub pattern: Option<String>,
}

/// The meaning of a [`JsoncUboot`].
#[verifier::ext_equal]
pub struct UbootView {
    pub interrupt_char: Option<Seq<char>>,
    pub interrupt_strategy: Option<Seq<char>>,
    pub pattern: Option<Seq<char>>,
}

impl View for JsoncUboot {
    type V = UbootView;

    open spec fn view(&self) -> UbootView {
        UbootView {
            interrupt_char: opt_text(self.interrupt_char),
            interrupt_strategy: opt_text(self.interrupt_strategy),
            pattern: opt_text(self.pattern),
        }
    }
}

/// Nothing set.
pub open spec fn no_uboot() -> UbootView {
    UbootView {
        interrupt_char: None,
        interrupt_strategy: None,
        pattern: None,
    }
}

impl Default for JsoncUboot {
    fn default() -> (r: Self)
        ensures
            r@ == no_uboot(),
    {
        let r = JsoncUboot {
            interrupt_char: None,
            interrupt_strategy: None,
            pattern: None,
        };
        assert(r@ =~= no_uboot());
        r
    }
}

impl JsoncUboot {
    /// A copy of the value.
    pub fn copy(&self) -> (r: Self)
        ensures
            r@ == self@,
    {
        let r = JsoncUboot {
            interrupt_char: copy_opt(&self.interrupt_char),
            interrupt_strategy: copy_opt(&self.interrupt_strategy),
            pattern: copy_opt(&self.pattern),
        };
        assert(r@ =~= self@);
        r
    }
}

/// The member names that may stand in it.
pub open spec fn uboot_keys() -> Seq<Seq<char>> {
    seq!["interrupt_char"@, "interrupt_strategy"@, "pattern"@]
}

/// What an object holds. There is nothing where a member is unknown, occurs
/// twice or has the wrong type.
pub open spec fn uboot_of(j: JsonView) -> Option<UbootView> {
    match j {
        JsonView::Object(m) => {
            if only(m, uboot_keys())
                && text_value(member(m, "interrupt_char"@)) is Some
                && text_value(member(m, "interrupt_strategy"@)) is Some
                && text_value(member(m, "pattern"@)) is Some {
                Some(
                    UbootView {
                        interrupt_char: text_value(member(m, "interrupt_char"@))->0,
                        interrupt_strategy: text_value(member(m, "interrupt_strategy"@))->0,
                        pattern: text_value(member(m, "pattern"@))->0,
                    },
                )
            } else {
                None
            }
        },
        _ => None,
    }
}

/// An optional section.
pub open spec fn uboot_value(o: Option<JsonView>) -> Option<Option<UbootView>> {
    match o {
        None => Some(None),
        Some(JsonView::Null) => Some(None),
        Some(j) => match uboot_of(j) {
            Some(x) => Some(Some(x)),
            None => None,
        },
    }
}

fn uboot_from(j: &Json) -> (r: Option<JsoncUboot>)
    ensures
        r is Some <==> uboot_of(j@) is Some,
        r is Some ==> uboot_of(j@) == Some(r->0@),
{
    match j {
        Json::Object(m) => {
            let names: Vec<&str> = vec!["interrupt_char", "interrupt_strategy", "pattern"];
            assert(strs(names@) =~= uboot_keys());
            if !only_members(m, &names) {
                return None;
            }
            let interrupt_char = match read_text(find(m, "interrupt_char")) {
                Some(x) => x,
                None => {
                    return None;
                },
            };
            let interrupt_strategy = match read_text(find(m, "interrupt_strategy")) {
                Some(x) => x,
                None => {
                    return None;
                },
            };
            let pattern = match read_text(find(m, "pattern")) {
                Some(x) => x,
                None => {
                    return None;
                },
            };
            let r = JsoncUboot { interrupt_char, interrupt_strategy, pattern };
            assert(r@ =~= uboot_of(j@)->0);
            Some(r)
        },
        _ => None,
    }
}

fn read_uboot(o: Option<&Json>) -> (r: Option<Option<JsoncUboot>>)
    ensures
        r is Some <==> uboot_value(ref_json(o)) is Some,
        r is Some ==> uboot_value(ref_json(o)) == Some(
            match r->0 {
                Some(x) => Some(x@),
                None => None,
            },
        ),
{
    match o {
        None => Some(None),
        Some(Json::Null) => Some(None),
        Some(j) => match uboot_from(j) {
            Some(x) => Some(Some(x)),
            None => None,
        },
    }
}

/// The relay that resets and powers a board.
#[derive(Debug, PartialEq)]
pub struct JsoncRelay {
    pub relay_type: Option<String>,
    pub port: Option<u16>,
    pub ip: Option<String>,
    pub reset_ch: Option<u8>,
    pub download_ch: Option<u8>,
    pub power_ch: Option<u8>,
    pub reset_time_ms: Option<u64>,
    pub power_off_time_ms: Option<u64>,
}

/// The meaning of a [`JsoncRelay`].
#[verifier::ext_equal]
pub struct RelayView {
    pub relay_type: Option<Seq<char>>,
    pub port: Option<u16>,
    pub ip: Option<Seq<char>>,
    pub reset_ch: Option<u8>,
    pub download_ch: Option<u8>,
    pub power_ch: Option<u8>,
    pub reset_time_ms: Option<u64>,
    pub power_off_time_ms: Option<u64>,
}

impl View for JsoncRelay {
    type V = RelayView;

    open spec fn view(&self) -> RelayView {
        RelayView {
            relay_type: opt_text(self.relay_type),
            port: self.port,
            ip: opt_text(self.ip),
            reset_ch: self.reset_ch,
            download_ch: self.download_ch,
            power_ch: self.power_ch,
            reset_time_ms: self.reset_time_ms,
            power_off_time_ms: self.power_off_time_ms,
        }
    }
}

/// Nothing set.
pub open spec fn no_relay() -> RelayView {
    RelayView {
        relay_type: None,
        port: None,
        ip: None,
        reset_ch: None,
        download_ch: None,
        power_ch: None,
        reset_time_ms: None,
        power_off_time_ms: None,
    }
}

impl Default for JsoncRelay {
    fn default() -> (r: Self)
        ensures
            r@ == no_relay(),
    {
        let r = JsoncRelay {
            relay_type: None,
            port: None,
            ip: None,
            reset_ch: None,
            download_ch: None,
            power_ch: None,
            reset_time_ms: None,
            power_off_time_ms: None,
        };
        assert(r@ =~= no_relay());
        r
    }
}

impl JsoncRelay {
    /// A copy of the value.
    pub fn copy(&self) -> (r: Self)
        ensures
            r@ == self@,
    {
        let r = JsoncRelay {
            relay_type: copy_opt(&self.relay_type),
            port: self.port,
            ip: copy_opt(&self.ip),
            reset_ch: self.reset_ch,
            download_ch: self.download_ch,
            power_ch: self.power_ch,
            reset_time_ms: self.reset_time_ms,
            power_off_time_ms: self.power_off_time_ms,
        };
        assert(r@ =~= self@);
        r
    }
}

/// The member names that may stand in it.
pub open spec fn relay_keys() -> Seq<Seq<char>> {
    seq!["type"@, "port"@, "ip"@, "reset_ch"@, "reset_channel"@, "download_ch"@, "download_channel"@, "power_ch"@, "power_channel"@, "reset_time_ms"@, "power_off_time_ms"@]
}

/// What an object holds. There is nothing where a member is unknown, occurs
/// twice or has the wrong type.
pub open spec fn relay_of(j: JsonView) -> Option<RelayView> {
    match j {
        JsonView::Object(m) => {
            if only(m, relay_keys())
                && text_value(member(m, "type"@)) is Some
                && u16_value(member(m, "port"@)) is Some
                && text_value(member(m, "ip"@)) is Some
                && u8_value(either(m, "reset_ch"@, "reset_channel"@)) is Some
                && u8_value(either(m, "download_ch"@, "download_channel"@)) is Some
                && u8_value(either(m, "power_ch"@, "power_channel"@)) is Some
                && u64_value(member(m, "reset_time_ms"@)) is Some
                && u64_value(member(m, "power_off_time_ms"@)) is Some
                && !(member(m, "reset_ch"@) is Some && member(m, "reset_channel"@) is Some)
                && !(member(m, "download_ch"@) is Some && member(m, "download_channel"@) is Some)
                && !(member(m, "power_ch"@) is Some && member(m, "power_channel"@) is Some) {
                Some(
                    RelayView {
                        relay_type: text_value(member(m, "type"@))->0,
                        port: u16_value(member(m, "port"@))->0,
                        ip: text_value(member(m, "ip"@))->0,
                        reset_ch: u8_value(either(m, "reset_ch"@, "reset_channel"@))->0,
                        download_ch: u8_value(either(m, "download_ch"@, "download_channel"@))->0,
                        power_ch: u8_value(either(m, "power_ch"@, "power_channel"@))->0,
                        reset_time_ms: u64_value(member(m, "reset_time_ms"@))->0,
                        power_off_time_ms: u64_value(member(m, "power_off_time_ms"@))->0,
                    },
                )
            } else {
                None
            }
        },
        _ => None,
    }
}

/// An optional section.
pub open spec fn relay_value(o: Option<JsonView>) -> Option<Option<RelayView>> {
    match o {
        None => Some(None),
        Some(JsonView::Null) => Some(None),
        Some(j) => match relay_of(j) {
            Some(x) => Some(Some(x)),
            None => None,
        },
    }
}

fn relay_from(j: &Json) -> (r: Option<JsoncRelay>)
    ensures
        r is Some <==> relay_of(j@) is Some,
        r is Some ==> relay_of(j@) == Some(r->0@),
{
    match j {
        Json::Object(m) => {
            let names: Vec<&str> = vec!["type", "port", "ip", "reset_ch", "reset_channel", "download_ch", "download_channel", "power_ch", "power_channel", "reset_time_ms", "power_off_time_ms"];
            assert(strs(names@) =~= relay_keys());
            if !only_members(m, &names) {
                return None;
            }
            if (find(m, "reset_ch").is_some() && find(m, "reset_channel").is_some())
                || (find(m, "download_ch").is_some() && find(m, "download_channel").is_some())
                || (find(m, "power_ch").is_some() && find(m, "power_channel").is_some()) {
                return None;
            }
            let relay_type = match read_text(find(m, "type")) {
                Some(x) => x,
                None => {
                    return None;
                },
            };
            let port = match read_u16(find(m, "port")) {
                Some(x) => x,
                None => {
                    return None;
                },
            };
            let ip = match read_text(find(m, "ip")) {
                Some(x) => x,
                None => {
                    return None;
                },
            };
            let reset_ch = match read_u8(find_either(m, "reset_ch", "reset_channel")) {
                Some(x) => x,
                None => {
                    return None;
                },
            };
            let download_ch = match read_u8(find_either(m, "download_ch", "download_channel")) {
                Some(x) => x,
                None => {
                    return None;
                },
            };
            let power_ch = match read_u8(find_either(m, "power_ch", "power_channel")) {
                Some(x) => x,
                None => {
                    return None;
                },
            };
            let reset_time_ms = match read_u64(find(m, "reset_time_ms")) {
                Some(x) => x,
                None => {
                    return None;
                },
            };
            let power_off_time_ms = match read_u64(find(m, "power_off_time_ms")) {
                Some(x) => x,
                None => {
                    return None;
                },
            };
            let r = JsoncRelay { relay_type, port, ip, reset_ch, download_ch, power_ch, reset_time_ms, power_off_time_ms };
            assert(r@ =~= relay_of(j@)->0);
            Some(r)
        },
        _ => None,
    }
}

fn read_relay(o: Option<&Json>) -> (r: Option<Option<JsoncRelay>>)
    ensures
        r is Some <==> relay_value(ref_json(o)) is Some,
        r is Some ==> relay_value(ref_json(o)) == Some(
            match r->0 {
                Some(x) => Some(x@),
                None => None,
            },
        ),
{
    match o {
        None => Some(None),
        Some(Json::Null) => Some(None),
        Some(j) => match relay_from(j) {
            Some(x) => Some(Some(x)),
            None => None,
        },
    }
}

/// What is watched for on the console of a board.
#[derive(Debug, PartialEq)]
pub struct JsoncMonitor {
    pub hang_timeout: Option<u64>,
    pub hang_hysteresis: Option<u64>,
    pub max_archived_logs: Option<u64>,
    pub max_log_file_size: Option<u64>,
    pub reference_log: Option<String>,
    pub learner_stage_threshold: Option<Real>,
    pub learner_crash_threshold: Option<Real>,
    pub crash_keywords: Option<Vec<String>>,
}

/// The meaning of a [`JsoncMonitor`].
#[verifier::ext_equal]
pub struct MonitorView {
    pub hang_timeout: Option<u64>,
    pub hang_hysteresis: Option<u64>,
    pub max_archived_logs: Option<u64>,
    pub max_log_file_size: Option<u64>,
    pub reference_log: Option<Seq<char>>,
    pub learner_stage_threshold: Option<RealView>,
    pub learner_crash_threshold: Option<RealView>,
    pub crash_keywords: Option<Seq<Seq<char>>>,
}

impl View for JsoncMonitor {
    type V = MonitorView;

    open spec fn view(&self) -> MonitorView {
        MonitorView {
            hang_timeout: self.hang_timeout,
            hang_hysteresis: self.hang_hysteresis,
            max_archived_logs: self.max_archived_logs,
            max_log_file_size: self.max_log_file_size,
            reference_log: opt_text(self.reference_log),
            learner_stage_threshold: opt_real(self.learner_stage_threshold),
            learner_crash_threshold: opt_real(self.learner_crash_threshold),
            crash_keywords: opt_texts(self.crash_keywords),
        }
    }
}

/// Nothing set.
pub open spec fn no_monitor() -> MonitorView {
    MonitorView {
        hang_timeout: None,
        hang_hysteresis: None,
        max_archived_logs: None,
        max_log_file_size: None,
        reference_log: None,
        learner_stage_threshold: None,
        learner_crash_threshold: None,
        crash_keywords: None,
    }
}

impl Default for JsoncMonitor {
    fn default() -> (r: Self)
        ensures
            r@ == no_monitor(),
    {
        let r = JsoncMonitor {
            hang_timeout: None,
            hang_hysteresis: None,
            max_archived_logs: None,
            max_log_file_size: None,
            reference_log: None,
            learner_stage_threshold: None,
            learner_crash_threshold: None,
            crash_keywords: None,
        };
        assert(r@ =~= no_monitor());
        r
    }
}

impl JsoncMonitor {
    /// A copy of the value.
    pub fn copy(&self) -> (r: Self)
        ensures
            r@ == self@,
    {
        let r = JsoncMonitor {
            hang_timeout: self.hang_timeout,
            hang_hysteresis: self.hang_hysteresis,
            max_archived_logs: self.max_archived_logs,
            max_log_file_size: self.max_log_file_size,
            reference_log: copy_opt(&self.reference_log),
            learner_stage_threshold: copy_opt_real(&self.learner_stage_threshold),
            learner_crash_threshold: copy_opt_real(&self.learner_crash_threshold),
            crash_keywords: copy_opt_texts(&self.crash_keywords),
        };
        assert(r@ =~= self@);
        r
    }
}

/// The member names that may stand in it.
pub open spec fn monitor_keys() -> Seq<Seq<char>> {
    seq!["hang_timeout"@, "hang_hysteresis"@, "max_archived_logs"@, "max_log_file_size"@, "reference_log"@, "learner_stage_threshold"@, "learner_crash_threshold"@, "crash_keywords"@]
}

/// What an object holds. There is nothing where a member is unknown, occurs
/// twice or has the wrong type.
pub open spec fn monitor_of(j: JsonView) -> Option<MonitorView> {
    match j {
        JsonView::Object(m) => {
            if only(m, monitor_keys())
                && u64_value(member(m, "hang_timeout"@)) is Some
                && u64_value(member(m, "hang_hysteresis"@)) is Some
                && u64_value(member(m, "max_archived_logs"@)) is Some
                && u64_value(member(m, "max_log_file_size"@)) is Some
                && text_value(member(m, "reference_log"@)) is Some
                && real_value_of(member(m, "learner_stage_threshold"@)) is Some
                && real_value_of(member(m, "learner_crash_threshold"@)) is Some
                && texts_value(member(m, "crash_keywords"@)) is Some {
                Some(
                    MonitorView {
                        hang_timeout: u64_value(member(m, "hang_timeout"@))->0,
                        hang_hysteresis: u64_value(member(m, "hang_hysteresis"@))->0,
                        max_archived_logs: u64_value(member(m, "max_archived_logs"@))->0,
                        max_log_file_size: u64_value(member(m, "max_log_file_size"@))->0,
                        reference_log: text_value(member(m, "reference_log"@))->0,
                        learner_stage_threshold: real_value_of(member(m, "learner_stage_threshold"@))->0,
                        learner_crash_threshold: real_value_of(member(m, "learner_crash_threshold"@))->0,
                        crash_keywords: texts_value(member(m, "crash_keywords"@))->0,
                    },
                )
            } else {
                None
            }
        },
        _ => None,
    }
}

/// An optional section.
pub open spec fn monitor_value(o: Option<JsonView>) -> Option<Option<MonitorView>> {
    match o {
        None => Some(None),
        Some(JsonView::Null) => Some(None),
        Some(j) => match monitor_of(j) {
            Some(x) => Some(Some(x)),
            None => None,
        },
    }
}

fn monitor_from(j: &Json) -> (r: Option<JsoncMonitor>)
    ensures
        r is Some <==> monitor_of(j@) is Some,
        r is Some ==> monitor_of(j@) == Some(r->0@),
{
    match j {
        Json::Object(m) => {
            let names: Vec<&str> = vec!["hang_timeout", "hang_hysteresis", "max_archived_logs", "max_log_file_size", "reference_log", "learner_stage_threshold", "learner_crash_threshold", "crash_keywords"];
            assert(strs(names@) =~= monitor_keys());
            if !only_members(m, &names) {
                return None;
            }
            let hang_timeout = match read_u64(find(m, "hang_timeout")) {
                Some(x) => x,
                None => {
                    return None;
                },
            };
            let hang_hysteresis = match read_u64(find(m, "hang_hysteresis")) {
                Some(x) => x,
                None => {
                    return None;
                },
            };
            let max_archived_logs = match read_u64(find(m, "max_archived_logs")) {
                Some(x) => x,
                None => {
                    return None;
                },
            };
            let max_log_file_size = match read_u64(find(m, "max_log_file_size")) {
                Some(x) => x,
                None => {
                    return None;
                },
            };
            let reference_log = match read_text(find(m, "reference_log")) {
                Some(x) => x,
                None => {
                    return None;
                },
            };
            let learner_stage_threshold = match read_real(find(m, "learner_stage_threshold")) {
                Some(x) => x,
                None => {
                    return None;
                },
            };
            let learner_crash_threshold = match read_real(find(m, "learner_crash_threshold")) {
                Some(x) => x,
                None => {
                    return None;
                },
            };
            let crash_keywords = match read_texts(find(m, "crash_keywords")) {
                Some(x) => x,
                None => {
                    return None;
                },
            };
            let r = JsoncMonitor { hang_timeout, hang_hysteresis, max_archived_logs, max_log_file_size, reference_log, learner_stage_threshold, learner_crash_threshold, crash_keywords };
            assert(r@ =~= monitor_of(j@)->0);
            Some(r)
        },
        _ => None,
    }
}

fn read_monitor(o: Option<&Json>) -> (r: Option<Option<JsoncMonitor>>)
    ensures
        r is Some <==> monitor_value(ref_json(o)) is Some,
        r is Some ==> monitor_value(ref_json(o)) == Some(
            match r->0 {
                Some(x) => Some(x@),
                None => None,
            },
        ),
{
    match o {
        None => Some(None),
        Some(Json::Null) => Some(None),
        Some(j) => match monitor_from(j) {
            Some(x) => Some(Some(x)),
            None => None,
        },
    }
}

/// The commands that write images to a board.
#[derive(Debug, PartialEq)]
pub struct JsoncFlash {
    pub tool: Option<String>,
    pub full_image_cmd: Option<String>,
    pub kernel_image_cmd: Option<String>,
    pub loader_bin: Option<String>,
    pub loader_cmd: Option<String>,
    pub list_devices_cmd: Option<String>,
    pub upload_dir: Option<String>,
}

/// The meaning of a [`JsoncFlash`].
#[verifier::ext_equal]
pub struct FlashView {
    pub tool: Option<Seq<char>>,
    pub full_image_cmd: Option<Seq<char>>,
    pub kernel_image_cmd: Option<Seq<char>>,
    pub loader_bin: Option<Seq<char>>,
    pub loader_cmd: Option<Seq<char>>,
    pub list_devices_cmd: Option<Seq<char>>,
    pub upload_dir: Option<Seq<char>>,
}

impl View for JsoncFlash {
    type V = FlashView;

    open spec fn view(&self) -> FlashView {
        FlashView {
            tool: opt_text(self.tool),
            full_image_cmd: opt_text(self.full_image_cmd),
            kernel_image_cmd: opt_text(self.kernel_image_cmd),
            loader_bin: opt_text(self.loader_bin),
            loader_cmd: opt_text(self.loader_cmd),
            list_devices_cmd: opt_text(self.list_devices_cmd),
            upload_dir: opt_text(self.upload_dir),
        }
    }
}

/// Nothing set.
pub open spec fn no_flash() -> FlashView {
    FlashView {
        tool: None,
        full_image_cmd: None,
        kernel_image_cmd: None,
        loader_bin: None,
        loader_cmd: None,
        list_devices_cmd: None,
        upload_dir: None,
    }
}

impl Default for JsoncFlash {
    fn default() -> (r: Self)
        ensures
            r@ == no_flash(),
    {
        let r = JsoncFlash {
            tool: None,
            full_image_cmd: None,
            kernel_image_cmd: None,
            loader_bin: None,
            loader_cmd: None,
            list_devices_cmd: None,
            upload_dir: None,
        };
        assert(r@ =~= no_flash());
        r
    }
}

impl JsoncFlash {
    /// A copy of the value.
    pub fn copy(&self) -> (r: Self)
        ensures
            r@ == self@,
    {
        let r = JsoncFlash {
            tool: copy_opt(&self.tool),
            full_image_cmd: copy_opt(&self.full_image_cmd),
            kernel_image_cmd: copy_opt(&self.kernel_image_cmd),
            loader_bin: copy_opt(&self.loader_bin),
            loader_cmd: copy_opt(&self.loader_cmd),
            list_devices_cmd: copy_opt(&self.list_devices_cmd),
            upload_dir: copy_opt(&self.upload_dir),
        };
        assert(r@ =~= self@);
        r
    }
}

/// The member names that may stand in it.
pub open spec fn flash_keys() -> Seq<Seq<char>> {
    seq!["tool"@, "full_image_cmd"@, "kernel_image_cmd"@, "loader_bin"@, "loader_cmd"@, "list_devices_cmd"@, "upload_dir"@]
}

/// What an object holds. There is nothing where a member is unknown, occurs
/// twice or has the wrong type.
pub open spec fn flash_of(j: JsonView) -> Option<FlashView> {
    match j {
        JsonView::Object(m) => {
            if only(m, flash_keys())
                && text_value(member(m, "tool"@)) is Some
                && text_value(member(m, "full_image_cmd"@)) is Some
                && text_value(member(m, "kernel_image_cmd"@)) is Some
                && text_value(member(m, "loader_bin"@)) is Some
                && text_value(member(m, "loader_cmd"@)) is Some
                && text_value(member(m, "list_devices_cmd"@)) is Some
                && text_value(member(m, "upload_dir"@)) is Some {
                Some(
                    FlashView {
                        tool: text_value(member(m, "tool"@))->0,
                        full_image_cmd: text_value(member(m, "full_image_cmd"@))->0,
                        kernel_image_cmd: text_value(member(m, "kernel_image_cmd"@))->0,
                        loader_bin: text_value(member(m, "loader_bin"@))->0,
                        loader_cmd: text_value(member(m, "loader_cmd"@))->0,
                        list_devices_cmd: text_value(member(m, "list_devices_cmd"@))->0,
                        upload_dir: text_value(member(m, "upload_dir"@))->0,
                    },
                )
            } else {
                None
            }
        },
        _ => None,
    }
}

/// An optional section.
pub open spec fn flash_value(o: Option<JsonView>) -> Option<Option<FlashView>> {
    match o {
        None => Some(None),
        Some(JsonView::Null) => Some(None),
        Some(j) => match flash_of(j) {
            Some(x) => Some(Some(x)),
            None => None,
        },
    }
}

fn flash_from(j: &Json) -> (r: Option<JsoncFlash>)
    ensures
        r is Some <==> flash_of(j@) is Some,
        r is Some ==> flash_of(j@) == Some(r->0@),
{
    match j {
        Json::Object(m) => {
            let names: Vec<&str> = vec!["tool", "full_image_cmd", "kernel_image_cmd", "loader_bin", "loader_cmd", "list_devices_cmd", "upload_dir"];
            assert(strs(names@) =~= flash_keys());
            if !only_members(m, &names) {
                return None;
            }
            let tool = match read_text(find(m, "tool")) {
                Some(x) => x,
                None => {
                    return None;
                },
            };
            let full_image_cmd = match read_text(find(m, "full_image_cmd")) {
                Some(x) => x,
                None => {
                    return None;
                },
            };
            let kernel_image_cmd = match read_text(find(m, "kernel_image_cmd")) {
                Some(x) => x,
                None => {
                    return None;
                },
            };
            let loader_bin = match read_text(find(m, "loader_bin")) {
                Some(x) => x,
                None => {
                    return None;
                },
            };
            let loader_cmd = match read_text(find(m, "loader_cmd")) {
                Some(x) => x,
                None => {
                    return None;
                },
            };
            let list_devices_cmd = match read_text(find(m, "list_devices_cmd")) {
                Some(x) => x,
                None => {
                    return None;
                },
            };
            let upload_dir = match read_text(find(m, "upload_dir")) {
                Some(x) => x,
                None => {
                    return None;
                },
            };
            let r = JsoncFlash { tool, full_image_cmd, kernel_image_cmd, loader_bin, loader_cmd, list_devices_cmd, upload_dir };
            assert(r@ =~= flash_of(j@)->0);
            Some(r)
        },
        _ => None,
    }
}

fn read_flash(o: Option<&Json>) -> (r: Option<Option<JsoncFlash>>)
    ensures
        r is Some <==> flash_value(ref_json(o)) is Some,
        r is Some ==> flash_value(ref_json(o)) == Some(
            match r->0 {
                Some(x) => Some(x@),
                None => None,
            },
        ),
{
    match o {
        None => Some(None),
        Some(Json::Null) => Some(None),
        Some(j) => match flash_from(j) {
            Some(x) => Some(Some(x)),
            None => None,
        },
    }
}

/// The device that controls a board.
#[derive(Debug, PartialEq)]
pub struct JsoncControl {
    pub dev_ctrl: Option<String>,
}

/// The meaning of a [`JsoncControl`].
#[verifier::ext_equal]
pub struct ControlView {
    pub dev_ctrl: Option<Seq<char>>,
}

impl View for JsoncControl {
    type V = ControlView;

    open spec fn view(&self) -> ControlView {
        ControlView {
            dev_ctrl: opt_text(self.dev_ctrl),
        }
    }
}

/// Nothing set.
pub open spec fn no_control() -> ControlView {
    ControlView {
        dev_ctrl: None,
    }
}

impl Default for JsoncControl {
    fn default() -> (r: Self)
        ensures
            r@ == no_control(),
    {
        let r = JsoncControl {
            dev_ctrl: None,
        };
        assert(r@ =~= no_control());
        r
    }
}

impl JsoncControl {
    /// A copy of the value.
    pub fn copy(&self) -> (r: Self)
        ensures
            r@ == self@,
    {
        let r = JsoncControl {
            dev_ctrl: copy_opt(&self.dev_ctrl),
        };
        assert(r@ =~= self@);
        r
    }
}

/// The member names that may stand in it.
pub open spec fn control_keys() -> Seq<Seq<char>> {
    seq!["dev_ctrl"@]
}

/// What an object holds. There is nothing where a member is unknown, occurs
/// twice or has the wrong type.
pub open spec fn control_of(j: JsonView) -> Option<ControlView> {
    match j {
        JsonView::Object(m) => {
            if only(m, control_keys())
                && text_value(member(m, "dev_ctrl"@)) is Some {
                Some(
                    ControlView {
                        dev_ctrl: text_value(member(m, "dev_ctrl"@))->0,
                    },
                )
            } else {
                None
            }
        },
        _ => None,
    }
}

/// An optional section.
pub open spec fn control_value(o: Option<JsonView>) -> Option<Option<ControlView>> {
    match o {
        None => Some(None),
        Some(JsonView::Null) => Some(None),
        Some(j) => match control_of(j) {
            Some(x) => Some(Some(x)),
            None => None,
        },
    }
}

fn control_from(j: &Json) -> (r: Option<JsoncControl>)
    ensures
        r is Some <==> control_of(j@) is Some,
        r is Some ==> control_of(j@) == Some(r->0@),
{
    match j {
        Json::Object(m) => {
            let names: Vec<&str> = vec!["dev_ctrl"];
            assert(strs(names@) =~= control_keys());
            if !only_members(m, &names) {
                return None;
            }
            let dev_ctrl = match read_text(find(m, "dev_ctrl")) {
                Some(x) => x,
                None => {
                    return None;
                },
            };
            let r = JsoncControl { dev_ctrl };
            assert(r@ =~= control_of(j@)->0);
            Some(r)
        },
        _ => None,
    }
}

fn read_control(o: Option<&Json>) -> (r: Option<Option<JsoncControl>>)
    ensures
        r is Some <==> control_value(ref_json(o)) is Some,
        r is Some ==> control_value(ref_json(o)) == Some(
            match r->0 {
                Some(x) => Some(x@),
                None => None,
            },
        ),
{
    match o {
        None => Some(None),
        Some(Json::Null) => Some(None),
        Some(j) => match control_from(j) {
            Some(x) => Some(Some(x)),
            None => None,
        },
    }
}

/// One board.
#[derive(Debug, PartialEq)]
pub struct JsoncDut {
    pub dut_name: String,
    pub serial: Option<JsoncSerial>,
    pub target: Option<JsoncTarget>,
    pub uboot: Option<JsoncUboot>,
    pub relay: Option<JsoncRelay>,
    pub monitor: Option<JsoncMonitor>,
    pub flash: Option<JsoncFlash>,
    pub download: Option<Json>,
    pub control: Option<JsoncControl>,
    pub loader: Option<String>,
    pub reference_log: Option<String>,
    pub dut_dir: Option<String>,
}

/// The meaning of a [`JsoncDut`].
#[verifier::ext_equal]
pub struct DutView {
    pub dut_name: Seq<char>,
    pub serial: Option<SerialView>,
    pub target: Option<TargetView>,
    pub uboot: Option<UbootView>,
    pub relay: Option<RelayView>,
    pub monitor: Option<MonitorView>,
    pub flash: Option<FlashView>,
    pub download: Option<JsonView>,
    pub control: Option<ControlView>,
    pub loader: Option<Seq<char>>,
    pub reference_log: Option<Seq<char>>,
    pub dut_dir: Option<Seq<char>>,
}

impl View for JsoncDut {
    type V = DutView;

    open spec fn view(&self) -> DutView {
        DutView {
            dut_name: self.dut_name@,
            serial: match self.serial {
                Some(x) => Some(x@),
                None => None,
            },
            target: match self.target {
                Some(x) => Some(x@),
                None => None,
            },
            uboot: match self.uboot {
                Some(x) => Some(x@),
                None => None,
            },
            relay: match self.relay {
                Some(x) => Some(x@),
                None => None,
            },
            monitor: match self.monitor {
                Some(x) => Some(x@),
                None => None,
            },
            flash: match self.flash {
                Some(x) => Some(x@),
                None => None,
            },
            download: opt_json(self.download),
            control: match self.control {
                Some(x) => Some(x@),
                None => None,
            },
            loader: opt_text(self.loader),
            reference_log: opt_text(self.reference_log),
            dut_dir: opt_text(self.dut_dir),
        }
    }
}

/// Nothing set.
pub open spec fn no_dut() -> DutView {
    DutView {
        dut_name: Seq::empty(),
        serial: None,
        target: None,
        uboot: None,
        relay: None,
        monitor: None,
        flash: None,
        download: None,
        control: None,
        loader: None,
        reference_log: None,
        dut_dir: None,
    }
}

impl Default for JsoncDut {
    fn default() -> (r: Self)
        ensures
            r@ == no_dut(),
    {
        let r = JsoncDut {
            dut_name: String::new(),
            serial: None,
            target: None,
            uboot: None,
            relay: None,
            monitor: None,
            flash: None,
            download: None,
            control: None,
            loader: None,
            reference_log: None,
            dut_dir: None,
        };
        assert(r@ =~= no_dut());
        r
    }
}

/// The meanings of a list.
pub open spec fn duts_view(v: Seq<JsoncDut>) -> Seq<DutView> {
    Seq::new(v.len(), |i: int| v[i]@)
}

/// A copy of a list.
pub fn copy_duts(v: &Vec<JsoncDut>) -> (r: Vec<JsoncDut>)
    ensures
        duts_view(r@) == duts_view(v@),
{
    let mut out: Vec<JsoncDut> = Vec::new();
    let mut i: usize = 0;
    while i < v.len()
        invariant
            i <= v.len(),
            out@.len() == i,
            forall|j: int| 0 <= j < i ==> #[trigger] out@[j]@ == v@[j]@,
        decreases v.len() - i,
    {
        out.push(v[i].copy());
        i += 1;
    }
    assert(duts_view(out@) =~= duts_view(v@));
    out
}

impl JsoncDut {
    /// A copy of the value.
    pub fn copy(&self) -> (r: Self)
        ensures
            r@ == self@,
    {
        let r = JsoncDut {
            dut_name: owned(self.dut_name.as_str()),
            serial: match &self.serial {
                Some(x) => Some(x.copy()),
                None => None,
            },
            target: match &self.target {
                Some(x) => Some(x.copy()),
                None => None,
            },
            uboot: match &self.uboot {
                Some(x) => Some(x.copy()),
                None => None,
            },
            relay: match &self.relay {
                Some(x) => Some(x.copy()),
                None => None,
            },
            monitor: match &self.monitor {
                Some(x) => Some(x.copy()),
                None => None,
            },
            flash: match &self.flash {
                Some(x) => Some(x.copy()),
                None => None,
            },
            download: copy_opt_json(&self.download),
            control: match &self.control {
                Some(x) => Some(x.copy()),
                None => None,
            },
            loader: copy_opt(&self.loader),
            reference_log: copy_opt(&self.reference_log),
            dut_dir: copy_opt(&self.dut_dir),
        };
        assert(r@ =~= self@);
        r
    }
}

/// The member names that may stand in it.
pub open spec fn dut_keys() -> Seq<Seq<char>> {
    seq!["dut_name"@, "serial"@, "target"@, "uboot"@, "relay"@, "monitor"@, "flash"@, "download"@, "control"@, "loader"@, "reference_log"@, "dut_dir"@]
}

/// What an object holds. There is nothing where a member is unknown, occurs
/// twice or has the wrong type.
pub open spec fn dut_of(j: JsonView) -> Option<DutView> {
    match j {
        JsonView::Object(m) => {
            if only(m, dut_keys())
                && name_value(member(m, "dut_name"@)) is Some
                && serial_value(member(m, "serial"@)) is Some
                && target_value(member(m, "target"@)) is Some
                && uboot_value(member(m, "uboot"@)) is Some
                && relay_value(member(m, "relay"@)) is Some
                && monitor_value(member(m, "monitor"@)) is Some
                && flash_value(member(m, "flash"@)) is Some
                && json_value(member(m, "download"@)) is Some
                && control_value(member(m, "control"@)) is Some
                && text_value(member(m, "loader"@)) is Some
                && text_value(member(m, "reference_log"@)) is Some
                && text_value(member(m, "dut_dir"@)) is Some {
                Some(
                    DutView {
                        dut_name: name_value(member(m, "dut_name"@))->0,
                        serial: serial_value(member(m, "serial"@))->0,
                        target: target_value(member(m, "target"@))->0,
                        uboot: uboot_value(member(m, "uboot"@))->0,
                        relay: relay_value(member(m, "relay"@))->0,
                        monitor: monitor_value(member(m, "monitor"@))->0,
                        flash: flash_value(member(m, "flash"@))->0,
                        download: json_value(member(m, "download"@))->0,
                        control: control_value(member(m, "control"@))->0,
                        loader: text_value(member(m, "loader"@))->0,
                        reference_log: text_value(member(m, "reference_log"@))->0,
                        dut_dir: text_value(member(m, "dut_dir"@))->0,
                    },
                )
            } else {
                None
            }
        },
        _ => None,
    }
}

fn dut_from(j: &Json) -> (r: Option<JsoncDut>)
    ensures
        r is Some <==> dut_of(j@) is Some,
        r is Some ==> dut_of(j@) == Some(r->0@),
{
    match j {
        Json::Object(m) => {
            let names: Vec<&str> = vec!["dut_name", "serial", "target", "uboot", "relay", "monitor", "flash", "download", "control", "loader", "reference_log", "dut_dir"];
            assert(strs(names@) =~= dut_keys());
            if !only_members(m, &names) {
                return None;
            }
            let dut_name = match read_name(find(m, "dut_name")) {
                Some(x) => x,
                None => {
                    return None;
                },
            };
            let serial = match read_serial(find(m, "serial")) {
                Some(x) => x,
                None => {
                    return None;
                },
            };
            let target = match read_target(find(m, "target")) {
                Some(x) => x,
                None => {
                    return None;
                },
            };
            let uboot = match read_uboot(find(m, "uboot")) {
                Some(x) => x,
                None => {
                    return None;
                },
            };
            let relay = match read_relay(find(m, "relay")) {
                Some(x) => x,
                None => {
                    return None;
                },
            };
            let monitor = match read_monitor(find(m, "monitor")) {
                Some(x) => x,
                None => {
                    return None;
                },
            };
            let flash = match read_flash(find(m, "flash")) {
                Some(x) => x,
                None => {
                    return None;
                },
            };
            let download = match read_json(find(m, "download")) {
                Some(x) => x,
                None => {
                    return None;
                },
            };
            let control = match read_control(find(m, "control")) {
                Some(x) => x,
                None => {
                    return None;
                },
            };
            let loader = match read_text(find(m, "loader")) {
                Some(x) => x,
                None => {
                    return None;
                },
            };
            let reference_log = match read_text(find(m, "reference_log")) {
                Some(x) => x,
                None => {
                    return None;
                },
            };
            let dut_dir = match read_text(find(m, "dut_dir")) {
                Some(x) => x,
                None => {
                    return None;
                },
            };
            let r = JsoncDut { dut_name, serial, target, uboot, relay, monitor, flash, download, control, loader, reference_log, dut_dir };
            assert(r@ =~= dut_of(j@)->0);
            Some(r)
        },
        _ => None,
    }
}

/// The elements from `i` on, behind those in `before`.
pub open spec fn duts_from(v: Seq<JsonView>, i: int, before: Seq<DutView>) -> Option<Seq<DutView>>
    decreases v.len() - i,
{
    if i < 0 || i >= v.len() {
        Some(before)
    } else {
        match dut_of(v[i]) {
            Some(x) => duts_from(v, i + 1, before.push(x)),
            None => None,
        }
    }
}

/// A list, which may be left out.
pub open spec fn duts_value(o: Option<JsonView>) -> Option<Seq<DutView>> {
    match o {
        None => Some(Seq::empty()),
        Some(JsonView::Array(v)) => duts_from(v, 0, Seq::empty()),
        _ => None,
    }
}

fn read_duts(o: Option<&Json>) -> (r: Option<Vec<JsoncDut>>)
    ensures
        r is Some <==> duts_value(ref_json(o)) is Some,
        r is Some ==> duts_value(ref_json(o)) == Some(duts_view(r->0@)),
{
    let mut out: Vec<JsoncDut> = Vec::new();
    assert(duts_view(out@) =~= Seq::empty());
    match o {
        None => Some(out),
        Some(Json::Array(v)) => {
            let ghost views = items_view(v@);
            proof {
                lemma_items_view(v@);
            }
            let mut i: usize = 0;
            while i < v.len()
                invariant
                    i <= v.len(),
                    views.len() == v@.len(),
                    forall|k: int| 0 <= k < v@.len() ==> #[trigger] views[k] == json_view(v@[k]),
                    ref_json(o) == Some(JsonView::Array(views)),
                    duts_from(views, i as int, duts_view(out@)) == duts_from(
                        views,
                        0,
                        Seq::empty(),
                    ),
                decreases v.len() - i,
            {
                let ghost before = out@;
                assert(views[i as int] == json_view(v@[i as int]));
                match dut_from(&v[i]) {
                    Some(x) => {
                        out.push(x);
                        assert(duts_view(out@) =~= duts_view(before).push(x@));
                    },
                    None => {
                        return None;
                    },
                }
                i += 1;
            }
            Some(out)
        },
        _ => None,
    }
}

/// A host and the boards that are wired to it.
#[derive(Debug, PartialEq)]
pub struct JsoncDevHost {
    pub host_name: Option<String>,
    pub ip: Option<String>,
    pub user: Option<String>,
    pub pass: Option<String>,
    pub duts: Vec<JsoncDut>,
}

/// The meaning of a [`JsoncDevHost`].
#[verifier::ext_equal]
pub struct HostView {
    pub host_name: Option<Seq<char>>,
    pub ip: Option<Seq<char>>,
    pub user: Option<Seq<char>>,
    pub pass: Option<Seq<char>>,
    pub duts: Seq<DutView>,
}

impl View for JsoncDevHost {
    type V = HostView;

    open spec fn view(&self) -> HostView {
        HostView {
            host_name: opt_text(self.host_name),
            ip: opt_text(self.ip),
            user: opt_text(self.user),
            pass: opt_text(self.pass),
            duts: duts_view(self.duts@),
        }
    }
}

/// Nothing set.
pub open spec fn no_host() -> HostView {
    HostView {
        host_name: None,
        ip: None,
        user: None,
        pass: None,
        duts: Seq::empty(),
    }
}

impl Default for JsoncDevHost {
    fn default() -> (r: Self)
        ensures
            r@ == no_host(),
    {
        let r = JsoncDevHost {
            host_name: None,
            ip: None,
            user: None,
            pass: None,
            duts: Vec::new(),
        };
        assert(r@ =~= no_host());
        r
    }
}

/// The meanings of a list.
pub open spec fn hosts_view(v: Seq<JsoncDevHost>) -> Seq<HostView> {
    Seq::new(v.len(), |i: int| v[i]@)
}

/// A copy of a list.
pub fn copy_hosts(v: &Vec<JsoncDevHost>) -> (r: Vec<JsoncDevHost>)
    ensures
        hosts_view(r@) == hosts_view(v@),
{
    let mut out: Vec<JsoncDevHost> = Vec::new();
    let mut i: usize = 0;
    while i < v.len()
        invariant
            i <= v.len(),
            out@.len() == i,
            forall|j: int| 0 <= j < i ==> #[trigger] out@[j]@ == v@[j]@,
        decreases v.len() - i,
    {
        out.push(v[i].copy());
        i += 1;
    }
    assert(hosts_view(out@) =~= hosts_view(v@));
    out
}

impl JsoncDevHost {
    /// A copy of the value.
    pub fn copy(&self) -> (r: Self)
        ensures
            r@ == self@,
    {
        let r = JsoncDevHost {
            host_name: copy_opt(&self.host_name),
            ip: copy_opt(&self.ip),
            user: copy_opt(&self.user),
            pass: copy_opt(&self.pass),
            duts: copy_duts(&self.duts),
        };
        assert(r@ =~= self@);
        r
    }
}

/// The member names that may stand in it.
pub open spec fn host_keys() -> Seq<Seq<char>> {
    seq!["host_name"@, "ip"@, "user"@, "pass"@, "duts"@]
}

/// What an object holds. There is nothing where a member is unknown, occurs
/// twice or has the wrong type.
pub open spec fn host_of(j: JsonView) -> Option<HostView> {
    match j {
        JsonView::Object(m) => {
            if only(m, host_keys())
                && text_value(member(m, "host_name"@)) is Some
                && text_value(member(m, "ip"@)) is Some
                && text_value(member(m, "user"@)) is Some
                && text_value(member(m, "pass"@)) is Some
                && duts_value(member(m, "duts"@)) is Some {
                Some(
                    HostView {
                        host_name: text_value(member(m, "host_name"@))->0,
                        ip: text_value(member(m, "ip"@))->0,
                        user: text_value(member(m, "user"@))->0,
                        pass: text_value(member(m, "pass"@))->0,
                        duts: duts_value(member(m, "duts"@))->0,
                    },
                )
            } else {
                None
            }
        },
        _ => None,
    }
}

fn host_from(j: &Json) -> (r: Option<JsoncDevHost>)
    ensures
        r is Some <==> host_of(j@) is Some,
        r is Some ==> host_of(j@) == Some(r->0@),
{
    match j {
        Json::Object(m) => {
            let names: Vec<&str> = vec!["host_name", "ip", "user", "pass", "duts"];
            assert(strs(names@) =~= host_keys());
            if !only_members(m, &names) {
                return None;
            }
            let host_name = match read_text(find(m, "host_name")) {
                Some(x) => x,
                None => {
                    return None;
                },
            };
            let ip = match read_text(find(m, "ip")) {
                Some(x) => x,
                None => {
                    return None;
                },
            };
            let user = match read_text(find(m, "user")) {
                Some(x) => x,
                None => {
                    return None;
                },
            };
            let pass = match read_text(find(m, "pass")) {
                Some(x) => x,
                None => {
                    return None;
                },
            };
            let duts = match read_duts(find(m, "duts")) {
                Some(x) => x,
                None => {
                    return None;
                },
            };
            let r = JsoncDevHost { host_name, ip, user, pass, duts };
            assert(r@ =~= host_of(j@)->0);
            Some(r)
        },
        _ => None,
    }
}

/// The elements from `i` on, behind those in `before`.
pub open spec fn hosts_from(v: Seq<JsonView>, i: int, before: Seq<HostView>) -> Option<Seq<HostView>>
    decreases v.len() - i,
{
    if i < 0 || i >= v.len() {
        Some(before)
    } else {
        match host_of(v[i]) {
            Some(x) => hosts_from(v, i + 1, before.push(x)),
            None => None,
        }
    }
}

/// A list, which may be left out.
pub open spec fn hosts_value(o: Option<JsonView>) -> Option<Seq<HostView>> {
    match o {
        None => Some(Seq::empty()),
        Some(JsonView::Array(v)) => hosts_from(v, 0, Seq::empty()),
        _ => None,
    }
}

fn read_hosts(o: Option<&Json>) -> (r: Option<Vec<JsoncDevHost>>)
    ensures
        r is Some <==> hosts_value(ref_json(o)) is Some,
        r is Some ==> hosts_value(ref_json(o)) == Some(hosts_view(r->0@)),
{
    let mut out: Vec<JsoncDevHost> = Vec::new();
    assert(hosts_view(out@) =~= Seq::empty());
    match o {
        None => Some(out),
        Some(Json::Array(v)) => {
            let ghost views = items_view(v@);
            proof {
                lemma_items_view(v@);
            }
            let mut i: usize = 0;
            while i < v.len()
                invariant
                    i <= v.len(),
                    views.len() == v@.len(),
                    forall|k: int| 0 <= k < v@.len() ==> #[trigger] views[k] == json_view(v@[k]),
                    ref_json(o) == Some(JsonView::Array(views)),
                    hosts_from(views, i as int, hosts_view(out@)) == hosts_from(
                        views,
                        0,
                        Seq::empty(),
                    ),
                decreases v.len() - i,
            {
                let ghost before = out@;
                assert(views[i as int] == json_view(v@[i as int]));
                match host_from(&v[i]) {
                    Some(x) => {
                        out.push(x);
                        assert(hosts_view(out@) =~= hosts_view(before).push(x@));
                    },
                    None => {
                        return None;
                    },
                }
                i += 1;
            }
            Some(out)
        },
        _ => None,
    }
}

/// A whole configuration: the hosts, and the sections that every board
/// falls back to.
#[derive(Debug, PartialEq)]
pub struct TargetJsoncConfig {
    pub dev_hosts: Vec<JsoncDevHost>,
    pub serial: Option<JsoncSerial>,
    pub target: Option<JsoncTarget>,
    pub uboot: Option<JsoncUboot>,
    pub relay: Option<JsoncRelay>,
    pub monitor: Option<JsoncMonitor>,
    pub flash: Option<JsoncFlash>,
    pub download: Option<Json>,
    pub control: Option<JsoncControl>,
    pub loader: Option<String>,
    pub reference_log: Option<String>,
    pub dut_dir: Option<String>,
    pub lock_dir: Option<String>,
}

/// The meaning of a [`TargetJsoncConfig`].
#[verifier::ext_equal]
pub struct ConfigView {
    pub dev_hosts: Seq<HostView>,
    pub serial: Option<SerialView>,
    pub target: Option<TargetView>,
    pub uboot: Option<UbootView>,
    pub relay: Option<RelayView>,
    pub monitor: Option<MonitorView>,
    pub flash: Option<FlashView>,
    pub download: Option<JsonView>,
    pub control: Option<ControlView>,
    pub loader: Option<Seq<char>>,
    pub reference_log: Option<Seq<char>>,
    pub dut_dir: Option<Seq<char>>,
    pub lock_dir: Option<Seq<char>>,
}

impl View for TargetJsoncConfig {
    type V = ConfigView;

    open spec fn view(&self) -> ConfigView {
        ConfigView {
            dev_hosts: hosts_view(self.dev_hosts@),
            serial: match self.serial {
                Some(x) => Some(x@),
                None => None,
            },
            target: match self.target {
                Some(x) => Some(x@),
                None => None,
            },
            uboot: match self.uboot {
                Some(x) => Some(x@),
                None => None,
            },
            relay: match self.relay {
                Some(x) => Some(x@),
                None => None,
            },
            monitor: match self.monitor {
                Some(x) => Some(x@),
                None => None,
            },
            flash: match self.flash {
                Some(x) => Some(x@),
                None => None,
            },
            download: opt_json(self.download),
            control: match self.control {
                Some(x) => Some(x@),
                None => None,
            },
            loader: opt_text(self.loader),
            reference_log: opt_text(self.reference_log),
            dut_dir: opt_text(self.dut_dir),
            lock_dir: opt_text(self.lock_dir),
        }
    }
}

/// Nothing set.
pub open spec fn no_config() -> ConfigView {
    ConfigView {
        dev_hosts: Seq::empty(),
        serial: None,
        target: None,
        uboot: None,
        relay: None,
        monitor: None,
        flash: None,
        download: None,
        control: None,
        loader: None,
        reference_log: None,
        dut_dir: None,
        lock_dir: None,
    }
}

impl Default for TargetJsoncConfig {
    fn default() -> (r: Self)
        ensures
            r@ == no_config(),
    {
        let r = TargetJsoncConfig {
            dev_hosts: Vec::new(),
            serial: None,
            target: None,
            uboot: None,
            relay: None,
            monitor: None,
            flash: None,
            download: None,
            control: None,
            loader: None,
            reference_log: None,
            dut_dir: None,
            lock_dir: None,
        };
        assert(r@ =~= no_config());
        r
    }
}

impl TargetJsoncConfig {
    /// A copy of the value.
    pub fn copy(&self) -> (r: Self)
        ensures
            r@ == self@,
    {
        let r = TargetJsoncConfig {
            dev_hosts: copy_hosts(&self.dev_hosts),
            serial: match &self.serial {
                Some(x) => Some(x.copy()),
                None => None,
            },
            target: match &self.target {
                Some(x) => Some(x.copy()),
                None => None,
            },
            uboot: match &self.uboot {
                Some(x) => Some(x.copy()),
                None => None,
            },
            relay: match &self.relay {
                Some(x) => Some(x.copy()),
                None => None,
            },
            monitor: match &self.monitor {
                Some(x) => Some(x.copy()),
                None => None,
            },
            flash: match &self.flash {
                Some(x) => Some(x.copy()),
                None => None,
            },
            download: copy_opt_json(&self.download),
            control: match &self.control {
                Some(x) => Some(x.copy()),
                None => None,
            },
            loader: copy_opt(&self.loader),
            reference_log: copy_opt(&self.reference_log),
            dut_dir: copy_opt(&self.dut_dir),
            lock_dir: copy_opt(&self.lock_dir),
        };
        assert(r@ =~= self@);
        r
    }
}

/// The member names that may stand in it.
pub open spec fn config_keys() -> Seq<Seq<char>> {
    seq!["dev_hosts"@, "serial"@, "target"@, "uboot"@, "relay"@, "monitor"@, "flash"@, "download"@, "control"@, "loader"@, "reference_log"@, "dut_dir"@, "lock_dir"@]
}

/// What an object holds. There is nothing where a member is unknown, occurs
/// twice or has the wrong type.
pub open spec fn config_of(j: JsonView) -> Option<ConfigView> {
    match j {
        JsonView::Object(m) => {
            if only(m, config_keys())
                && hosts_value(member(m, "dev_hosts"@)) is Some
                && serial_value(member(m, "serial"@)) is Some
                && target_value(member(m, "target"@)) is Some
                && uboot_value(member(m, "uboot"@)) is Some
                && relay_value(member(m, "relay"@)) is Some
                && monitor_value(member(m, "monitor"@)) is Some
                && flash_value(member(m, "flash"@)) is Some
                && json_value(member(m, "download"@)) is Some
                && control_value(member(m, "control"@)) is Some
                && text_value(member(m, "loader"@)) is Some
                && text_value(member(m, "reference_log"@)) is Some
                && text_value(member(m, "dut_dir"@)) is Some
                && text_value(member(m, "lock_dir"@)) is Some {
                Some(
                    ConfigView {
                        dev_hosts: hosts_value(member(m, "dev_hosts"@))->0,
                        serial: serial_value(member(m, "serial"@))->0,
                        target: target_value(member(m, "target"@))->0,
                        uboot: uboot_value(member(m, "uboot"@))->0,
                        relay: relay_value(member(m, "relay"@))->0,
                        monitor: monitor_value(member(m, "monitor"@))->0,
                        flash: flash_value(member(m, "flash"@))->0,
                        download: json_value(member(m, "download"@))->0,
                        control: control_value(member(m, "control"@))->0,
                        loader: text_value(member(m, "loader"@))->0,
                        reference_log: text_value(member(m, "reference_log"@))->0,
                        dut_dir: text_value(member(m, "dut_dir"@))->0,
                        lock_dir: text_value(member(m, "lock_dir"@))->0,
                    },
                )
            } else {
                None
            }
        },
        _ => None,
    }
}

fn config_from(j: &Json) -> (r: Option<TargetJsoncConfig>)
    ensures
        r is Some <==> config_of(j@) is Some,
        r is Some ==> config_of(j@) == Some(r->0@),
{
    match j {
        Json::Object(m) => {
            let names: Vec<&str> = vec!["dev_hosts", "serial", "target", "uboot", "relay", "monitor", "flash", "download", "control", "loader", "reference_log", "dut_dir", "lock_dir"];
            assert(strs(names@) =~= config_keys());
            if !only_members(m, &names) {
                return None;
            }
            let dev_hosts = match read_hosts(find(m, "dev_hosts")) {
                Some(x) => x,
                None => {
                    return None;
                },
            };
            let serial = match read_serial(find(m, "serial")) {
                Some(x) => x,
                None => {
                    return None;
                },
            };
            let target = match read_target(find(m, "target")) {
                Some(x) => x,
                None => {
                    return None;
                },
            };
            let uboot = match read_uboot(find(m, "uboot")) {
                Some(x) => x,
                None => {
                    return None;
                },
            };
            let relay = match read_relay(find(m, "relay")) {
                Some(x) => x,
                None => {
                    return None;
                },
            };
            let monitor = match read_monitor(find(m, "monitor")) {
                Some(x) => x,
                None => {
                    return None;
                },
            };
            let flash = match read_flash(find(m, "flash")) {
                Some(x) => x,
                None => {
                    return None;
                },
            };
            let download = match read_json(find(m, "download")) {
                Some(x) => x,
                None => {
                    return None;
                },
            };
            let control = match read_control(find(m, "control")) {
                Some(x) => x,
                None => {
                    return None;
                },
            };
            let loader = match read_text(find(m, "loader")) {
                Some(x) => x,
                None => {
                    return None;
                },
            };
            let reference_log = match read_text(find(m, "reference_log")) {
                Some(x) => x,
                None => {
                    return None;
                },
            };
            let dut_dir = match read_text(find(m, "dut_dir")) {
                Some(x) => x,
                None => {
                    return None;
                },
            };
            let lock_dir = match read_text(find(m, "lock_dir")) {
                Some(x) => x,
                None => {
                    return None;
                },
            };
            let r = TargetJsoncConfig { dev_hosts, serial, target, uboot, relay, monitor, flash, download, control, loader, reference_log, dut_dir, lock_dir };
            assert(r@ =~= config_of(j@)->0);
            Some(r)
        },
        _ => None,
    }
}

// ── Whole documents ──────────────────────────────────────────────────
/// Whether some host from entry `i` on still has the `alias` member.
pub open spec fn alias_from(v: Seq<JsonView>, i: int) -> bool
    decreases v.len() - i,
{
    if i < 0 || i >= v.len() {
        false
    } else {
        (match v[i] {
            JsonView::Object(m) => member(m, "alias"@) is Some,
            _ => false,
        }) || alias_from(v, i + 1)
    }
}

/// Whether some host still has the `alias` member.
pub open spec fn has_alias(j: JsonView) -> bool {
    match j {
        JsonView::Object(m) => match member(m, "dev_hosts"@) {
            Some(JsonView::Array(v)) => alias_from(v, 0),
            _ => false,
        },
        _ => false,
    }
}

fn finds_alias(j: &Json) -> (r: bool)
    ensures
        r == has_alias(j@),
{
    match j {
        Json::Object(m) => match find(m, "dev_hosts") {
            Some(Json::Array(v)) => {
                let ghost views = items_view(v@);
                proof {
                    lemma_items_view(v@);
                }
                let mut i: usize = 0;
                while i < v.len()
                    invariant
                        i <= v.len(),
                        views.len() == v@.len(),
                        forall|k: int|
                            0 <= k < v@.len() ==> #[trigger] views[k] == json_view(v@[k]),
                        alias_from(views, i as int) == alias_from(views, 0),
                        has_alias(j@) == alias_from(views, 0),
                    decreases v.len() - i,
                {
                    assert(views[i as int] == json_view(v@[i as int]));
                    if let Json::Object(h) = &v[i] {
                        if find(h, "alias").is_some() {
                            return true;
                        }
                    }
                    i += 1;
                }
                false
            },
            _ => false,
        },
        _ => false,
    }
}

/// The configuration that a text holds.
pub open spec fn config_text(s: Seq<char>) -> Option<ConfigView> {
    match document(s) {
        Some(j) => config_of(j),
        None => None,
    }
}

/// Why a text holds no configuration.
pub open spec fn config_error(s: Seq<char>) -> Seq<char> {
    match document(s) {
        None => "not valid JSON with comments"@,
        Some(j) => if has_alias(j) {
            "dev_hosts[].alias was renamed to host_name; re-run 'dutabo init'"@
        } else {
            "not a target configuration: unknown key, duplicate key or wrong type"@
        },
    }
}

/// Reads a configuration.
pub fn parse_jsonc_text(text: &str) -> (r: Result<TargetJsoncConfig, String>)
    ensures
        r is Ok <==> config_text(text@) is Some,
        r is Ok ==> config_text(text@) == Some(r->Ok_0@),
        r is Err ==> r->Err_0@ == config_error(text@),
{
    match parse_jsonc_value(text) {
        Err(e) => Err(e),
        Ok(j) => match config_from(&j) {
            Some(c) => Ok(c),
            None => {
                if finds_alias(&j) {
                    Err(owned("dev_hosts[].alias was renamed to host_name; re-run 'dutabo init'"))
                } else {
                    Err(
                        owned(
                            "not a target configuration: unknown key, duplicate key or wrong type",
                        ),
                    )
                }
            },
        },
    }
}

} // verus!
