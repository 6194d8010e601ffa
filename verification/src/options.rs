//! The options of the wizard.
use crate::text::{owned, same, texts};
use vstd::prelude::*;

verus! {

/// The options of the wizard.
#[derive(Clone, Copy, Debug, PartialEq, Eq, Structural)]
pub struct InitOptions {
    /// Nobody is asked: the defaults are the answers.
    pub non_interactive: bool,
    /// The advanced keys of the top-level sections are not asked for.
    pub quick: bool,
    /// The advanced keys of the top-level sections are asked for.
    pub advanced: bool,
    /// An existing file is overwritten.
    pub force: bool,
    /// The full-screen form is used.
    pub tui: bool,
    /// The line-by-line questions are used.
    pub plain: bool,
}

/// No option.
pub open spec fn no_options() -> InitOptions {
    InitOptions {
        non_interactive: false,
        quick: false,
        advanced: false,
        force: false,
        tui: false,
        plain: false,
    }
}

impl Default for InitOptions {
    fn default() -> (r: Self)
        ensures
            r == no_options(),
    {
        InitOptions {
            non_interactive: false,
            quick: false,
            advanced: false,
            force: false,
            tui: false,
            plain: false,
        }
    }
}

/// The options with one argument.
pub open spec fn with_argument(o: InitOptions, arg: Seq<char>) -> Option<InitOptions> {
    if arg == "--non-interactive"@ {
        Some(InitOptions { non_interactive: true, ..o })
    } else if arg == "--quick"@ {
        Some(InitOptions { quick: true, ..o })
    } else if arg == "--advanced"@ {
        Some(InitOptions { advanced: true, ..o })
    } else if arg == "--force"@ {
        Some(InitOptions { force: true, ..o })
    } else if arg == "--tui"@ {
        Some(InitOptions { tui: true, ..o })
    } else if arg == "--plain"@ {
        Some(InitOptions { plain: true, ..o })
    } else {
        None
    }
}

/// The options with the arguments from number `i` on, or the message about the
/// first that is not known.
pub open spec fn with_arguments(o: InitOptions, args: Seq<Seq<char>>, i: int) -> Result<
    InitOptions,
    Seq<char>,
>
    decreases args.len() - i,
{
    if i < 0 || i >= args.len() {
        Ok(o)
    } else {
        match with_argument(o, args[i]) {
            Some(next) => with_arguments(next, args, i + 1),
            None => Err("unknown argument for `dutabo init`: "@ + args[i]),
        }
    }
}

/// The options that arguments and environment spell. Two that exclude each
/// other are refused.
pub open spec fn options_of(args: Seq<Seq<char>>, env: bool) -> Result<InitOptions, Seq<char>> {
    match with_arguments(no_options(), args, 0) {
        Err(e) => Err(e),
        Ok(o) => if o.quick && o.advanced {
            Err("--quick and --advanced are mutually exclusive"@)
        } else if o.tui && o.plain {
            Err("--tui and --plain are mutually exclusive"@)
        } else {
            Ok(InitOptions { non_interactive: o.non_interactive || env, ..o })
        },
    }
}

impl InitOptions {
    /// The options that arguments and environment spell.
    pub fn from_args(positional: &[String], non_interactive_env: bool) -> (r: Result<Self, String>)
        ensures
            match r {
                Ok(o) => options_of(texts(positional@), non_interactive_env) == Ok::<
                    InitOptions,
                    Seq<char>,
                >(o),
                Err(e) => options_of(texts(positional@), non_interactive_env) == Err::<
                    InitOptions,
                    Seq<char>,
                >(e@),
            },
    {
        let ghost args = texts(positional@);
        let mut o = InitOptions::default();
        let mut i: usize = 0;
        while i < positional.len()
            invariant
                i <= positional.len(),
                args == texts(positional@),
                with_arguments(o, args, i as int) == with_arguments(no_options(), args, 0),
            decreases positional.len() - i,
        {
            let arg = positional[i].as_str();
            assert(args[i as int] == arg@);
            if same(arg, "--non-interactive") {
                o.non_interactive = true;
            } else if same(arg, "--quick") {
                o.quick = true;
            } else if same(arg, "--advanced") {
                o.advanced = true;
            } else if same(arg, "--force") {
                o.force = true;
            } else if same(arg, "--tui") {
                o.tui = true;
            } else if same(arg, "--plain") {
                o.plain = true;
            } else {
                let mut e = owned("unknown argument for `dutabo init`: ");
                e.append(arg);
                return Err(e);
            }
            i += 1;
        }
        if non_interactive_env {
            o.non_interactive = true;
        }
        if o.quick && o.advanced {
            return Err(owned("--quick and --advanced are mutually exclusive"));
        }
        if o.tui && o.plain {
            return Err(owned("--tui and --plain are mutually exclusive"));
        }
        Ok(o)
    }
}

/// Options that are accepted never exclude each other.
pub proof fn lemma_options_agree(args: Seq<Seq<char>>, env: bool)
    requires
        options_of(args, env) is Ok,
    ensures
        ({
            let o = options_of(args, env)->Ok_0;
            !(o.quick && o.advanced) && !(o.tui && o.plain) && (env ==> o.non_interactive)
        }),
{
}

} // verus!
