//! Single questions: what is asked, again and again if need be, and what an
//! answer means.
use crate::advanced::{advanced_literal, literal_of, EmptyMeans};
use crate::defaults::{take_name, with_name};
use crate::fields::FieldInstance;
use crate::naming::{next_free, next_free_dut_name};
use crate::number::{decimal, decimal_text, parse_unsigned, unsigned};
use crate::prompt::{asked, heard, noted, NoteKind, PromptIO, Talk, TalkView};
use crate::render::ref_comment;
use crate::resolve::{not_a_count, not_a_count_text};
use crate::text::{
    has_text, lemma_texts_push, opt_text, or_empty, owned, same, text_or_empty, texts, trim,
    trimmed,
};
use vstd::prelude::*;

verus! {

/// A count that came back, with the conversation after it.
pub open spec fn heard_count(r: Result<usize, String>, t: TalkView) -> (usize, Talk) {
    match r {
        Ok(n) => (n, (t, None)),
        Err(e) => (0, (t, Some(e@))),
    }
}

// ── Counts ───────────────────────────────────────────────────────────
/// Asking for a count until one is given. An empty reply means the default.
pub open spec fn asked_count(k: Talk, prompt: Seq<char>, default: usize) -> (usize, Talk)
    decreases k.0.lines.len(),
{
    let (raw, k1) = asked(k, prompt, Some(decimal(default as nat)));
    if k1.1 is Some {
        (0, k1)
    } else if trimmed(raw).len() == 0 {
        (default, k1)
    } else {
        match unsigned(trimmed(raw), usize::MAX as nat) {
            Some(n) => (n as usize, k1),
            None => asked_count(
                noted(k1, NoteKind::Error, not_a_count(trimmed(raw))),
                prompt,
                default,
            ),
        }
    }
}

/// Asks for a count until one is given.
pub fn ask_count<P: PromptIO>(io: &mut P, prompt: &str, default: usize) -> (r: Result<usize, String>)
    ensures
        heard_count(r, final(io).talk()) == asked_count((old(io).talk(), None), prompt@, default),
{
    let shown = decimal_text(default as u64);
    loop
        invariant
            shown@ == decimal(default as nat),
            asked_count((io.talk(), None), prompt@, default) == asked_count(
                (old(io).talk(), None),
                prompt@,
                default,
            ),
        decreases io.talk().lines.len(),
    {
        let raw = match io.input(prompt, Some(shown.as_str())) {
            Ok(raw) => raw,
            Err(e) => {
                return Err(e);
            },
        };
        let t = trim(raw.as_str());
        if t.is_empty() {
            return Ok(default);
        }
        match parse_unsigned(t, usize::MAX as u64) {
            Some(n) => {
                return Ok(n as usize);
            },
            None => {},
        }
        io.note(NoteKind::Error, not_a_count_text(t).as_str());
    }
}

// ── Texts ────────────────────────────────────────────────────────────
/// Asking for a text until one is given. An empty reply means the default
/// unless that is empty too.
pub open spec fn asked_required(k: Talk, prompt: Seq<char>, default: Seq<char>) -> (Seq<char>, Talk)
    decreases k.0.lines.len(),
{
    let (raw, k1) = asked(k, prompt + " (required)"@, Some(default));
    if k1.1 is Some {
        (Seq::empty(), k1)
    } else if trimmed(raw).len() > 0 {
        (trimmed(raw), k1)
    } else if default.len() > 0 {
        (default, k1)
    } else {
        asked_required(noted(k1, NoteKind::Error, "value is required"@), prompt, default)
    }
}

/// Asks for a text until one is given.
pub fn ask_required<P: PromptIO>(io: &mut P, prompt: &str, default: &Option<String>) -> (r: Result<
    String,
    String,
>)
    ensures
        heard(r, final(io).talk()) == asked_required(
            (old(io).talk(), None),
            prompt@,
            or_empty(opt_text(*default)),
        ),
{
    let def = text_or_empty(default);
    let mut question = owned(prompt);
    question.append(" (required)");
    loop
        invariant
            def@ == or_empty(opt_text(*default)),
            question@ == prompt@ + " (required)"@,
            asked_required((io.talk(), None), prompt@, def@) == asked_required(
                (old(io).talk(), None),
                prompt@,
                def@,
            ),
        decreases io.talk().lines.len(),
    {
        let raw = match io.input(question.as_str(), Some(def.as_str())) {
            Ok(raw) => raw,
            Err(e) => {
                return Err(e);
            },
        };
        let t = trim(raw.as_str());
        if !t.is_empty() {
            return Ok(owned(t));
        }
        if !def.as_str().is_empty() {
            return Ok(def);
        }
        io.note(NoteKind::Error, "value is required");
    }
}

/// Asking for a text that is given takes a line at least.
pub proof fn lemma_required_takes_a_line(k: Talk, prompt: Seq<char>, default: Seq<char>)
    requires
        asked_required(k, prompt, default).1.1 is None,
    ensures
        asked_required(k, prompt, default).1.0.lines.len() < k.0.lines.len(),
    decreases k.0.lines.len(),
{
    let (raw, k1) = asked(k, prompt + " (required)"@, Some(default));
    if trimmed(raw).len() == 0 && default.len() == 0 {
        lemma_required_takes_a_line(
            noted(k1, NoteKind::Error, "value is required"@),
            prompt,
            default,
        );
    }
}

/// Asking for a text. An empty reply means the default.
pub open spec fn asked_optional(k: Talk, prompt: Seq<char>, default: Seq<char>) -> (Seq<char>, Talk) {
    let (raw, k1) = asked(k, prompt, Some(default));
    if k1.1 is Some {
        (Seq::empty(), k1)
    } else if trimmed(raw).len() > 0 {
        (trimmed(raw), k1)
    } else {
        (default, k1)
    }
}

/// Asks for a text. An empty reply means the default.
pub fn ask_optional<P: PromptIO>(io: &mut P, prompt: &str, default: &Option<String>) -> (r: Result<
    String,
    String,
>)
    ensures
        heard(r, final(io).talk()) == asked_optional(
            (old(io).talk(), None),
            prompt@,
            or_empty(opt_text(*default)),
        ),
{
    let def = text_or_empty(default);
    match io.input(prompt, Some(def.as_str())) {
        Ok(raw) => {
            let t = trim(raw.as_str());
            if t.is_empty() {
                Ok(def)
            } else {
                Ok(owned(t))
            }
        },
        Err(e) => Err(e),
    }
}

/// Asking again for a serial port as long as it is zero.
pub open spec fn not_zero_port(k: Talk, port: Seq<char>) -> (Seq<char>, Talk)
    decreases k.0.lines.len(),
{
    if k.1 is Some {
        (Seq::empty(), k)
    } else if trimmed(port) != "0"@ {
        (port, k)
    } else {
        let k1 = noted(k, NoteKind::Error, "serial.port cannot be 0"@);
        let (again, k2) = asked_required(k1, "Serial port must be non-zero"@, Seq::empty());
        if k2.0.lines.len() < k.0.lines.len() {
            not_zero_port(k2, again)
        } else {
            (Seq::empty(), k2)
        }
    }
}

/// Asking for a serial port until one is given that is not zero.
pub open spec fn asked_port(k: Talk, prompt: Seq<char>, default: Seq<char>) -> (Seq<char>, Talk) {
    let (port, k1) = asked_required(k, prompt, default);
    not_zero_port(k1, port)
}

/// Asks for a serial port until one is given that is not zero.
pub fn ask_port<P: PromptIO>(io: &mut P, prompt: &str, default: &Option<String>) -> (r: Result<
    String,
    String,
>)
    ensures
        heard(r, final(io).talk()) == asked_port(
            (old(io).talk(), None),
            prompt@,
            or_empty(opt_text(*default)),
        ),
{
    let ghost whole = asked_port((io.talk(), None), prompt@, or_empty(opt_text(*default)));
    let mut port = match ask_required(io, prompt, default) {
        Ok(p) => p,
        Err(e) => {
            return Err(e);
        },
    };
    while same(trim(port.as_str()), "0")
        invariant
            whole == asked_port((old(io).talk(), None), prompt@, or_empty(opt_text(*default))),
            not_zero_port((io.talk(), None), port@) == whole,
        decreases io.talk().lines.len(),
    {
        let ghost k: Talk = (io.talk(), None);
        io.note(NoteKind::Error, "serial.port cannot be 0");
        let ghost k1: Talk = (io.talk(), None);
        proof {
            if asked_required(k1, "Serial port must be non-zero"@, Seq::empty()).1.1 is None {
                lemma_required_takes_a_line(k1, "Serial port must be non-zero"@, Seq::empty());
            }
        }
        port =
        match ask_required(io, "Serial port must be non-zero", &None) {
            Ok(p) => p,
            Err(e) => {
                proof {
                    let k2: Talk = (io.talk(), Some(e@));
                    assert(not_zero_port(k2, Seq::empty()) == (Seq::<char>::empty(), k2));
                }
                return Err(e);
            },
        };
    }
    Ok(port)
}

// ── Names ────────────────────────────────────────────────────────────
/// The conversation about a name: the name, what was decided about it, and the
/// names that are taken then.
#[verifier::ext_equal]
pub struct NameView {
    pub name: Seq<char>,
    pub note: Option<Seq<char>>,
    pub taken: Seq<Seq<char>>,
    pub talk: Talk,
}

/// The name that was found instead, with what is said about it.
pub open spec fn renamed(taken: Seq<Seq<char>>, k: Talk, name: Seq<char>, note: Seq<char>) -> NameView {
    NameView {
        name,
        note: Some(note),
        taken: taken.push(name),
        talk: noted(k, NoteKind::Info, note),
    }
}

/// Asking for the name of a board. An empty reply, or the default typed back,
/// keeps the default; a name that is taken gives way to the first free one.
pub open spec fn asked_name(
    k: Talk,
    prompt: Seq<char>,
    default: Option<Seq<char>>,
    taken: Seq<Seq<char>>,
) -> NameView {
    let free = next_free("dut"@, taken);
    let def = match default {
        Some(d) => d,
        None => free,
    };
    let (raw, k1) = asked(k, prompt, Some(def));
    let t = trimmed(raw);
    if k1.1 is Some {
        NameView { name: Seq::empty(), note: None, taken, talk: k1 }
    } else if t.len() == 0 || t == def {
        if def.len() == 0 {
            renamed(taken, k1, free, "dut name was empty — auto-named '"@ + free + "'"@)
        } else {
            NameView { name: def, note: None, taken: with_name(taken, def), talk: k1 }
        }
    } else if taken.contains(t) {
        renamed(
            taken,
            k1,
            free,
            "dut name '"@ + t + "' already taken — using '"@ + free + "'"@,
        )
    } else {
        NameView { name: t, note: None, taken: taken.push(t), talk: k1 }
    }
}

/// A name that came back, with what follows from it.
pub open spec fn heard_name(
    r: Result<(String, Option<String>), String>,
    taken: Seq<Seq<char>>,
    t: TalkView,
) -> NameView {
    match r {
        Ok((name, note)) => NameView { name: name@, note: opt_text(note), taken, talk: (t, None) },
        Err(e) => NameView { name: Seq::empty(), note: None, taken, talk: (t, Some(e@)) },
    }
}

/// Asks for the name of a board. What was decided about it is told to the user
/// and handed back.
pub fn ask_dut_name<P: PromptIO>(
    io: &mut P,
    prompt: &str,
    default: &Option<String>,
    taken: &mut Vec<String>,
) -> (r: Result<(String, Option<String>), String>)
    ensures
        heard_name(r, texts(final(taken)@), final(io).talk()) == asked_name(
            (old(io).talk(), None),
            prompt@,
            opt_text(*default),
            texts(old(taken)@),
        ),
{
    broadcast use lemma_texts_push;

    let free = next_free_dut_name("dut", taken.as_slice());
    let def = match default {
        Some(d) => owned(d.as_str()),
        None => owned(free.as_str()),
    };
    let raw = match io.input(prompt, Some(def.as_str())) {
        Ok(raw) => raw,
        Err(e) => {
            return Err(e);
        },
    };
    let t = trim(raw.as_str());
    if t.is_empty() || same(t, def.as_str()) {
        if def.as_str().is_empty() {
            taken.push(owned(free.as_str()));
            let mut note = owned("dut name was empty — auto-named '");
            note.append(free.as_str());
            note.append("'");
            io.note(NoteKind::Info, note.as_str());
            return Ok((free, Some(note)));
        }
        take_name(taken, def.as_str());
        return Ok((def, None));
    }
    if has_text(taken.as_slice(), t) {
        taken.push(owned(free.as_str()));
        let mut note = owned("dut name '");
        note.append(t);
        note.append("' already taken — using '");
        note.append(free.as_str());
        note.append("'");
        io.note(NoteKind::Info, note.as_str());
        return Ok((free, Some(note)));
    }
    taken.push(owned(t));
    Ok((owned(t), None))
}

// ── Checked values ───────────────────────────────────────────────────
/// Asking for an advanced value until one is given that can be taken. An empty
/// reply means the default, or nothing where the value is to be inherited.
pub open spec fn asked_advanced(
    k: Talk,
    label: Seq<char>,
    empty: EmptyMeans,
    key: Seq<char>,
    default: Seq<char>,
) -> (Seq<char>, Talk)
    decreases k.0.lines.len(),
{
    let (raw, k1) = asked(k, label, Some(default));
    if k1.1 is Some {
        (Seq::empty(), k1)
    } else if trimmed(raw).len() == 0 {
        (
            if empty == EmptyMeans::AcceptDefault {
                default
            } else {
                Seq::empty()
            },
            k1,
        )
    } else {
        match literal_of(key, trimmed(raw)) {
            Ok(_) => (trimmed(raw), k1),
            Err(e) => asked_advanced(noted(k1, NoteKind::Error, e), label, empty, key, default),
        }
    }
}

/// Asks for an advanced value until one is given that can be taken.
pub fn ask_advanced_value<P: PromptIO>(
    io: &mut P,
    label: &str,
    empty: EmptyMeans,
    key: &str,
    default: &str,
) -> (r: Result<String, String>)
    ensures
        heard(r, final(io).talk()) == asked_advanced(
            (old(io).talk(), None),
            label@,
            empty,
            key@,
            default@,
        ),
{
    loop
        invariant
            asked_advanced((io.talk(), None), label@, empty, key@, default@) == asked_advanced(
                (old(io).talk(), None),
                label@,
                empty,
                key@,
                default@,
            ),
        decreases io.talk().lines.len(),
    {
        let raw = match io.input(label, Some(default)) {
            Ok(raw) => raw,
            Err(e) => {
                return Err(e);
            },
        };
        let t = trim(raw.as_str());
        if t.is_empty() {
            if empty == EmptyMeans::AcceptDefault {
                return Ok(owned(default));
            }
            return Ok(String::new());
        }
        match advanced_literal(key, t) {
            Ok(_) => {
                return Ok(owned(t));
            },
            Err(e) => {
                io.note(NoteKind::Error, e.as_str());
            },
        }
    }
}

/// Asking for a number of the relay until one is given that can be taken.
pub open spec fn asked_relay(
    k: Talk,
    label: Seq<char>,
    default: Option<Seq<char>>,
    empty: EmptyMeans,
    key: Seq<char>,
) -> (Seq<char>, Talk)
    decreases k.0.lines.len(),
{
    let (raw, k1) = asked(k, label, default);
    if k1.1 is Some {
        (Seq::empty(), k1)
    } else if trimmed(raw).len() == 0 {
        (
            if empty == EmptyMeans::AcceptDefault {
                or_empty(default)
            } else {
                Seq::empty()
            },
            k1,
        )
    } else {
        match literal_of(key, trimmed(raw)) {
            Ok(_) => (trimmed(raw), k1),
            Err(e) => asked_relay(noted(k1, NoteKind::Error, e), label, default, empty, key),
        }
    }
}

fn as_ref(o: &Option<String>) -> (r: Option<&str>)
    ensures
        ref_comment(r) == opt_text(*o),
{
    match o {
        Some(s) => Some(s.as_str()),
        None => None,
    }
}

/// Asks for a number of the relay until one is given that can be taken.
pub fn ask_relay_field<P: PromptIO>(io: &mut P, field: &FieldInstance, advanced_key: &str) -> (r: Result<
    String,
    String,
>)
    ensures
        heard(r, final(io).talk()) == asked_relay(
            (old(io).talk(), None),
            field@.label,
            field@.default,
            field@.empty,
            advanced_key@,
        ),
{
    loop
        invariant
            asked_relay(
                (io.talk(), None),
                field@.label,
                field@.default,
                field@.empty,
                advanced_key@,
            ) == asked_relay(
                (old(io).talk(), None),
                field@.label,
                field@.default,
                field@.empty,
                advanced_key@,
            ),
        decreases io.talk().lines.len(),
    {
        let raw = match io.input(field.label.as_str(), as_ref(&field.default)) {
            Ok(raw) => raw,
            Err(e) => {
                return Err(e);
            },
        };
        let t = trim(raw.as_str());
        if t.is_empty() {
            if field.empty == EmptyMeans::AcceptDefault {
                return Ok(text_or_empty(&field.default));
            }
            return Ok(String::new());
        }
        match advanced_literal(advanced_key, t) {
            Ok(_) => {
                return Ok(owned(t));
            },
            Err(e) => {
                io.note(NoteKind::Error, e.as_str());
            },
        }
    }
}

/// Asking for an advanced value of a board until one is given that can be
/// taken. The default is shown; an empty reply keeps what the board has, and
/// never takes a default that is not configured, but for the baud rate.
pub open spec fn asked_dut_key(
    k: Talk,
    label: Seq<char>,
    hint: Seq<char>,
    now: Option<Seq<char>>,
    empty: EmptyMeans,
    key: Seq<char>,
) -> (Seq<char>, Talk)
    decreases k.0.lines.len(),
{
    let (raw, k1) = asked(k, label, Some(hint));
    let t = trimmed(raw);
    if k1.1 is Some {
        (Seq::empty(), k1)
    } else if t.len() > 0 {
        match literal_of(key, t) {
            Ok(_) => (t, k1),
            Err(e) => asked_dut_key(noted(k1, NoteKind::Error, e), label, hint, now, empty, key),
        }
    } else if key == "serial.baudrate"@ {
        (trimmed(hint), k1)
    } else if key == "uboot.pattern"@ {
        asked_dut_key(
            noted(k1, NoteKind::Error, "uboot.pattern is required for pattern strategy"@),
            label,
            hint,
            now,
            empty,
            key,
        )
    } else if empty == EmptyMeans::AcceptDefault {
        (trimmed(or_empty(now)), k1)
    } else {
        (Seq::empty(), k1)
    }
}

/// Asks for an advanced value of a board until one is given that can be taken.
pub fn ask_dut_key<P: PromptIO>(
    io: &mut P,
    label: &str,
    hint: &str,
    now: &Option<String>,
    empty: EmptyMeans,
    key: &str,
) -> (r: Result<String, String>)
    ensures
        heard(r, final(io).talk()) == asked_dut_key(
            (old(io).talk(), None),
            label@,
            hint@,
            opt_text(*now),
            empty,
            key@,
        ),
{
    let ghost nv = opt_text(*now);
    loop
        invariant
            nv == opt_text(*now),
            asked_dut_key((io.talk(), None), label@, hint@, nv, empty, key@) == asked_dut_key(
                (old(io).talk(), None),
                label@,
                hint@,
                nv,
                empty,
                key@,
            ),
        decreases io.talk().lines.len(),
    {
        let raw = match io.input(label, Some(hint)) {
            Ok(raw) => raw,
            Err(e) => {
                return Err(e);
            },
        };
        let t = trim(raw.as_str());
        if !t.is_empty() {
            match advanced_literal(key, t) {
                Ok(_) => {
                    return Ok(owned(t));
                },
                Err(e) => {
                    io.note(NoteKind::Error, e.as_str());
                },
            }
        } else if same(key, "serial.baudrate") {
            return Ok(owned(trim(hint)));
        } else if same(key, "uboot.pattern") {
            io.note(NoteKind::Error, "uboot.pattern is required for pattern strategy");
        } else if empty == EmptyMeans::AcceptDefault {
            let d = text_or_empty(now);
            return Ok(owned(trim(d.as_str())));
        } else {
            return Ok(String::new());
        }
    }
}

} // verus!
