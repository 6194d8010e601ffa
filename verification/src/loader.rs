//! Boot loaders: the ones that are known, by name.
use crate::number::{ascii_lowered, to_ascii_lower};
use crate::text::{same, trim, trimmed};
use vstd::prelude::*;

verus! {

/// The behaviour of one boot loader.
pub trait Loader {
    /// The configuration value that selects the loader.
    spec fn loader_name(&self) -> Seq<char>;

    /// The character that stops the loader by default.
    spec fn interrupt_char(&self) -> Seq<char>;

    /// The way in which the loader is stopped by default.
    spec fn interrupt_strategy(&self) -> Seq<char>;

    /// Whether the loader is implemented.
    spec fn implemented(&self) -> bool;

    /// What to tell about a loader that is not implemented.
    spec fn missing_note(&self) -> Option<Seq<char>>;

    /// The configuration value that selects the loader.
    fn name(&self) -> (r: &'static str)
        ensures
            r@ == self.loader_name(),
    ;

    /// The character that stops the loader by default.
    fn default_interrupt_char(&self) -> (r: &'static str)
        ensures
            r@ == self.interrupt_char(),
    ;

    /// The way in which the loader is stopped by default.
    fn default_interrupt_strategy(&self) -> (r: &'static str)
        ensures
            r@ == self.interrupt_strategy(),
    ;

    /// Whether the loader is implemented.
    fn is_implemented(&self) -> (r: bool)
        ensures
            r == self.implemented(),
    ;

    /// What to tell about a loader that is not implemented.
    fn not_implemented_note(&self) -> (r: Option<&'static str>)
        ensures
            static_text(r) == self.missing_note(),
    ;
}

/// The meaning of an optional fixed text.
pub open spec fn static_text(o: Option<&'static str>) -> Option<Seq<char>> {
    match o {
        Some(s) => Some(s@),
        None => None,
    }
}

/// The loaders that are known.
#[derive(Clone, Copy, Debug, PartialEq, Eq, Structural)]
pub enum BootLoader {
    Uboot,
    Uefi,
}

impl Loader for BootLoader {
    open spec fn loader_name(&self) -> Seq<char> {
        match self {
            BootLoader::Uboot => "uboot"@,
            BootLoader::Uefi => "uefi"@,
        }
    }

    open spec fn interrupt_char(&self) -> Seq<char> {
        "ctrl_c"@
    }

    open spec fn interrupt_strategy(&self) -> Seq<char> {
        "flood"@
    }

    open spec fn implemented(&self) -> bool {
        *self == BootLoader::Uboot
    }

    open spec fn missing_note(&self) -> Option<Seq<char>> {
        match self {
            BootLoader::Uboot => None,
            BootLoader::Uefi => Some("uefi: not implemented yet"@),
        }
    }

    fn name(&self) -> (r: &'static str) {
        match self {
            BootLoader::Uboot => "uboot",
            BootLoader::Uefi => "uefi",
        }
    }

    fn default_interrupt_char(&self) -> (r: &'static str) {
        "ctrl_c"
    }

    fn default_interrupt_strategy(&self) -> (r: &'static str) {
        "flood"
    }

    fn is_implemented(&self) -> (r: bool) {
        match self {
            BootLoader::Uboot => true,
            BootLoader::Uefi => false,
        }
    }

    fn not_implemented_note(&self) -> (r: Option<&'static str>) {
        match self {
            BootLoader::Uboot => None,
            BootLoader::Uefi => Some("uefi: not implemented yet"),
        }
    }
}

/// The known loaders, in the order in which they are offered.
pub fn all() -> (r: Vec<BootLoader>)
    ensures
        r@ == seq![BootLoader::Uboot, BootLoader::Uefi],
{
    let r = vec![BootLoader::Uboot, BootLoader::Uefi];
    assert(r@ =~= seq![BootLoader::Uboot, BootLoader::Uefi]);
    r
}

/// The words for the known loaders, in the order in which they are offered.
pub const OPTIONS: [&'static str; 2] = ["uboot", "uefi"];

/// The loader that is used where none is configured.
pub fn default() -> (r: BootLoader)
    ensures
        r == BootLoader::Uboot,
{
    BootLoader::Uboot
}

/// The loader that a configuration value selects: white space around it and
/// the case of its letters do not count.
pub open spec fn loader_of(value: Seq<char>) -> Option<BootLoader> {
    let t = ascii_lowered(trimmed(value));
    if t == "uboot"@ {
        Some(BootLoader::Uboot)
    } else if t == "uefi"@ {
        Some(BootLoader::Uefi)
    } else {
        None
    }
}

/// The loader that a configuration value selects.
pub fn by_name(name: &str) -> (r: Option<BootLoader>)
    ensures
        r == loader_of(name@),
{
    let low = to_ascii_lower(trim(name));
    if same(low.as_str(), "uboot") {
        Some(BootLoader::Uboot)
    } else if same(low.as_str(), "uefi") {
        Some(BootLoader::Uefi)
    } else {
        None
    }
}

/// What to tell about a chosen loader that is not implemented.
pub fn not_implemented_note(value: &str) -> (r: Option<&'static str>)
    ensures
        static_text(r) == (match loader_of(value@) {
            Some(l) => l.missing_note(),
            None => None,
        }),
{
    match by_name(value) {
        Some(l) => l.not_implemented_note(),
        None => None,
    }
}

/// The words are those for the known loaders.
pub proof fn lemma_options(i: int)
    requires
        0 <= i < 2,
    ensures
        loader_of(OPTIONS@[i]@) == Some(
            if i == 0 {
                BootLoader::Uboot
            } else {
                BootLoader::Uefi
            },
        ),
{
    lemma_known_by_name(BootLoader::Uboot);
    lemma_known_by_name(BootLoader::Uefi);
}

/// Every known loader is found by its own name.
pub proof fn lemma_known_by_name(l: BootLoader)
    ensures
        loader_of(l.loader_name()) == Some(l),
{
    reveal_strlit("uboot");
    reveal_strlit("uefi");
    let n = l.loader_name();
    assert(crate::text::trim_front(n) == n);
    assert(crate::text::trim_back(n) == n);
    assert(ascii_lowered(n) =~= n);
    assert("uboot"@ != "uefi"@) by {
        assert("uboot"@.len() != "uefi"@.len());
    }
}

} // verus!
