//! Which options arguments spell.
use crate::options::{no_options, options_of, with_argument, with_arguments, InitOptions};
use vstd::prelude::*;

verus! {

/// Whether a word is among the arguments from number `i` on.
pub open spec fn said_from(args: Seq<Seq<char>>, word: Seq<char>, i: int) -> bool {
    exists|j: int| i <= j < args.len() && #[trigger] args[j] == word
}

/// Whether a word is among the arguments.
pub open spec fn said(args: Seq<Seq<char>>, word: Seq<char>) -> bool {
    said_from(args, word, 0)
}

/// Whether a word is an option.
pub open spec fn is_init_option(word: Seq<char>) -> bool {
    word == "--non-interactive"@ || word == "--quick"@ || word == "--advanced"@ || word
        == "--force"@ || word == "--tui"@ || word == "--plain"@
}

proof fn lemma_words_differ()
    ensures
        "--non-interactive"@.len() == 17,
        "--quick"@.len() == 7,
        "--advanced"@.len() == 10,
        "--force"@.len() == 7,
        "--tui"@.len() == 5,
        "--plain"@.len() == 7,
        "--quick"@ != "--force"@,
        "--quick"@ != "--plain"@,
        "--force"@ != "--plain"@,
{
    reveal_strlit("--non-interactive");
    reveal_strlit("--quick");
    reveal_strlit("--advanced");
    reveal_strlit("--force");
    reveal_strlit("--tui");
    reveal_strlit("--plain");
    assert("--quick"@[2] == 'q' && "--force"@[2] == 'f' && "--plain"@[2] == 'p');
}

proof fn lemma_said_step(args: Seq<Seq<char>>, word: Seq<char>, i: int)
    requires
        0 <= i < args.len(),
    ensures
        said_from(args, word, i) <==> args[i] == word || said_from(args, word, i + 1),
{
    if said_from(args, word, i) {
        let j = choose|j: int| i <= j < args.len() && #[trigger] args[j] == word;
        if j > i {
            assert(args[j] == word);
        }
    } else if said_from(args, word, i + 1) {
        let j = choose|j: int| i + 1 <= j < args.len() && #[trigger] args[j] == word;
        assert(args[j] == word);
    }
}

proof fn lemma_arguments_said(o: InitOptions, args: Seq<Seq<char>>, i: int)
    requires
        0 <= i <= args.len(),
    ensures
        match with_arguments(o, args, i) {
            Ok(r) => {
                &&& r.non_interactive == (o.non_interactive || said_from(
                    args,
                    "--non-interactive"@,
                    i,
                ))
                &&& r.quick == (o.quick || said_from(args, "--quick"@, i))
                &&& r.advanced == (o.advanced || said_from(args, "--advanced"@, i))
                &&& r.force == (o.force || said_from(args, "--force"@, i))
                &&& r.tui == (o.tui || said_from(args, "--tui"@, i))
                &&& r.plain == (o.plain || said_from(args, "--plain"@, i))
                &&& forall|j: int| i <= j < args.len() ==> is_init_option(#[trigger] args[j])
            },
            Err(e) => exists|j: int|
                i <= j < args.len() && !is_init_option(#[trigger] args[j]) && e
                    == "unknown argument for `dutabo init`: "@ + args[j],
        },
    decreases args.len() - i,
{
    lemma_words_differ();
    if i < args.len() {
        lemma_said_step(args, "--non-interactive"@, i);
        lemma_said_step(args, "--quick"@, i);
        lemma_said_step(args, "--advanced"@, i);
        lemma_said_step(args, "--force"@, i);
        lemma_said_step(args, "--tui"@, i);
        lemma_said_step(args, "--plain"@, i);
        match with_argument(o, args[i]) {
            Some(next) => {
                lemma_arguments_said(next, args, i + 1);
            },
            None => {
                assert(!is_init_option(args[i]));
            },
        }
    }
}

/// An option is set when its word is among the arguments, wherever and however
/// often, and not otherwise; the environment can only keep the user from being
/// asked. Arguments are refused when one of them is no option, or two of them
/// exclude each other, and only then.
pub proof fn lemma_options_are_said(args: Seq<Seq<char>>, env: bool)
    ensures
        match options_of(args, env) {
            Ok(r) => {
                &&& r.non_interactive == (env || said(args, "--non-interactive"@))
                &&& r.quick == said(args, "--quick"@)
                &&& r.advanced == said(args, "--advanced"@)
                &&& r.force == said(args, "--force"@)
                &&& r.tui == said(args, "--tui"@)
                &&& r.plain == said(args, "--plain"@)
            },
            Err(_) => true,
        },
        options_of(args, env) is Ok <==> {
            &&& forall|j: int| 0 <= j < args.len() ==> is_init_option(#[trigger] args[j])
            &&& !(said(args, "--quick"@) && said(args, "--advanced"@))
            &&& !(said(args, "--tui"@) && said(args, "--plain"@))
        },
{
    lemma_arguments_said(no_options(), args, 0);
}

} // verus!
