//! How the arguments of the server add up.
use crate::kept::lemma_unsigned_decimal;
use crate::number::{decimal, lemma_decimal_round_trip};
use crate::server_args::{
    default_args, has_value, last_colon, listen_on, port_of, request_from, request_of, ArgsView,
    RequestView,
};
use vstd::prelude::*;

verus! {

/// Whether an argument is an option.
pub open spec fn is_option(x: Seq<char>) -> bool {
    x.len() > 0 && x[0] == '-'
}

/// What some arguments ask for is asked for by them and an option more as well,
/// as far as the option does not change it.
proof fn lemma_option_more(args: Seq<String>, more: Seq<String>, i: int, a: ArgsView)
    requires
        1 <= i <= args.len(),
        more.len() > 0,
        is_option(more[0]@),
    ensures
        match request_from(args, i, a) {
            RequestView::Run(b) => request_from(args + more, i, a) == request_from(
                args + more,
                args.len() as int,
                b,
            ),
            r => request_from(args + more, i, a) == r,
        },
    decreases args.len() - i,
{
    let all = args + more;
    if i < args.len() {
        assert(all[i] == args[i]);
        if i + 1 < args.len() {
            assert(all[i + 1] == args[i + 1]);
        } else {
            assert(all[i + 1] == more[0]);
        }
        assert(has_value(all, i) == has_value(args, i));
        if has_value(args, i) {
            lemma_option_more(args, more, i + 2, ArgsView { http_mode: true, http_bind: args[i + 1]@, ..a });
            if let Some(n) = crate::number::unsigned(args[i + 1]@, u64::MAX as nat) {
                lemma_option_more(
                    args,
                    more,
                    i + 2,
                    ArgsView { idle_timeout: crate::server_args::timeout_of(n), ..a },
                );
            }
        }
        lemma_option_more(args, more, i + 1, ArgsView { verbose: true, ..a });
        lemma_option_more(args, more, i + 1, ArgsView { log_to_stderr: true, ..a });
        lemma_option_more(args, more, i + 1, ArgsView { diagnose: true, ..a });
        lemma_option_more(args, more, i + 1, ArgsView { http_mode: true, ..a });
        lemma_option_more(args, more, i + 1, ArgsView { dry_run: true, ..a });
    }
}

/// The first arguments decide: what asks for something else than to run does so
/// whatever options follow.
pub proof fn lemma_first_decides(args: Seq<String>, more: Seq<String>)
    requires
        args.len() > 0,
        more.len() > 0,
        is_option(more[0]@),
        !(request_of(args) is Run),
    ensures
        request_of(args + more) == request_of(args),
{
    lemma_option_more(args, more, 1, default_args());
}

proof fn lemma_options_differ()
    ensures
        is_option("-h"@),
        is_option("--help"@),
        is_option("-V"@),
        is_option("--version"@),
        is_option("-v"@),
        is_option("--verbose"@),
        is_option("--log-to-stderr"@),
        is_option("--diagnose"@),
        is_option("--http"@),
        is_option("--idle-timeout"@),
        is_option("--dry-run"@),
        "-v"@ != "-h"@,
        "-v"@ != "-V"@,
        "-V"@ != "-h"@,
        "-h"@.len() == 2,
        "-V"@.len() == 2,
        "-v"@.len() == 2,
        "--help"@.len() == 6,
        "--http"@.len() == 6,
        "--http"@ != "--help"@,
        "--version"@.len() == 9,
        "--verbose"@.len() == 9,
        "--version"@ != "--verbose"@,
        "--dry-run"@.len() == 9,
        "--dry-run"@ != "--verbose"@,
        "--dry-run"@ != "--version"@,
        "--diagnose"@.len() == 10,
        "--idle-timeout"@.len() == 14,
        "--log-to-stderr"@.len() == 15,
{
    reveal_strlit("-h");
    reveal_strlit("--help");
    reveal_strlit("-V");
    reveal_strlit("--version");
    reveal_strlit("-v");
    reveal_strlit("--verbose");
    reveal_strlit("--log-to-stderr");
    reveal_strlit("--diagnose");
    reveal_strlit("--http");
    reveal_strlit("--idle-timeout");
    reveal_strlit("--dry-run");
    assert("-v"@[1] == 'v' && "-V"@[1] == 'V' && "-h"@[1] == 'h');
    assert("--http"@[3] == 't' && "--help"@[3] == 'e');
    assert("--version"@[5] == 's' && "--verbose"@[5] == 'b');
    assert("--dry-run"@[2] == 'd' && "--verbose"@[2] == 'v' && "--version"@[2] == 'v');
}

/// An option behind arguments that ask to run adds what it stands for, and
/// leaves the rest of what they ask for as it was; the short words stand for
/// what the long ones do.
pub proof fn lemma_option_adds(args: Seq<String>, x: String, a: ArgsView)
    requires
        args.len() > 0,
        request_of(args) == RequestView::Run(a),
    ensures
        ({
            let r = request_of(args.push(x));
            &&& x@ == "-h"@ || x@ == "--help"@ ==> r == RequestView::Help
            &&& x@ == "-V"@ || x@ == "--version"@ ==> r == RequestView::Version
            &&& x@ == "-v"@ || x@ == "--verbose"@ ==> r == RequestView::Run(
                ArgsView { verbose: true, ..a },
            )
            &&& x@ == "--log-to-stderr"@ ==> r == RequestView::Run(
                ArgsView { log_to_stderr: true, ..a },
            )
            &&& x@ == "--diagnose"@ ==> r == RequestView::Run(ArgsView { diagnose: true, ..a })
            &&& x@ == "--dry-run"@ ==> r == RequestView::Run(ArgsView { dry_run: true, ..a })
            &&& x@ == "--http"@ ==> r == RequestView::Run(ArgsView { http_mode: true, ..a })
            &&& x@ == "--idle-timeout"@ ==> r == RequestView::NoTimeout
        }),
{
    let more = seq![x];
    let all = args.push(x);
    let n = args.len() as int;
    assert(args + more =~= all);
    lemma_options_differ();
    if is_option(x@) {
        lemma_option_more(args, more, 1, default_args());
        assert(all[n] == x);
        reveal_with_fuel(request_from, 2);
    }
}

/// An option with a value behind arguments that ask to run sets what it stands
/// for to the value: the address to listen on, and the seconds to wait, zero of
/// them for ever. A value that is no number is told.
pub proof fn lemma_value_sets(args: Seq<String>, x: String, value: String, a: ArgsView, n: nat)
    requires
        args.len() > 0,
        request_of(args) == RequestView::Run(a),
        !is_option(value@),
    ensures
        ({
            let r = request_of(args.push(x).push(value));
            &&& x@ == "--http"@ ==> r == RequestView::Run(
                ArgsView { http_mode: true, http_bind: value@, ..a },
            )
            &&& x@ == "--idle-timeout"@ && value@ == decimal(n) && 0 < n <= u64::MAX ==> r
                == RequestView::Run(ArgsView { idle_timeout: Some(n as u64), ..a })
            &&& x@ == "--idle-timeout"@ && value@ == decimal(0) ==> r == RequestView::Run(
                ArgsView { idle_timeout: None, ..a },
            )
            &&& x@ == "--idle-timeout"@ && crate::number::unsigned(value@, u64::MAX as nat) is None
                ==> r == RequestView::BadTimeout(value@)
        }),
{
    let more = seq![x, value];
    let all = args.push(x).push(value);
    let k = args.len() as int;
    assert(args + more =~= all);
    lemma_options_differ();
    if x@ == "--http"@ || x@ == "--idle-timeout"@ {
        lemma_option_more(args, more, 1, default_args());
        assert(all[k] == x);
        assert(all[k + 1] == value);
        assert(has_value(all, k));
        if n <= u64::MAX {
            lemma_unsigned_decimal(n, u64::MAX as nat);
        }
        lemma_unsigned_decimal(0, u64::MAX as nat);
        reveal_with_fuel(request_from, 2);
    }
}

/// Without arguments the server runs as a child of its client, quietly, and
/// would listen on its own machine only.
pub proof fn lemma_no_arguments(args: Seq<String>)
    requires
        args.len() <= 1,
    ensures
        request_of(args) matches RequestView::Run(a) && {
            &&& !a.http_mode
            &&& !a.verbose
            &&& !a.log_to_stderr
            &&& !a.dry_run
            &&& !a.diagnose
            &&& listen_on(a.http_bind) == ("127.0.0.1"@, 3000nat)
            &&& a.idle_timeout == Some(600u64)
        },
{
    let h = "127.0.0.1"@;
    let b = "127.0.0.1:3000"@;
    reveal_strlit("127.0.0.1");
    reveal_strlit("127.0.0.1:3000");
    reveal_with_fuel(decimal, 5);
    assert(decimal(3000) =~= seq!['3', '0', '0', '0']);
    assert(b =~= h + seq![':'] + decimal(3000));
    lemma_address_is_listened_on(h, 3000);
}

proof fn lemma_colon(host: Seq<char>, rest: Seq<char>, n: int)
    requires
        forall|k: int| 0 <= k < rest.len() ==> rest[k] != ':',
        host.len() < n <= host.len() + 1 + rest.len(),
    ensures
        last_colon(host + seq![':'] + rest, n) == Some(host.len() as int),
    decreases n,
{
    let s = host + seq![':'] + rest;
    if n == host.len() + 1 {
        assert(s[n - 1] == ':');
    } else {
        assert(s[n - 1] == rest[n - 2 - host.len()]);
        lemma_colon(host, rest, n - 1);
    }
}

/// An address that is a host, a colon and a port is listened on as that host and
/// that port, whatever colons the host holds.
pub proof fn lemma_address_is_listened_on(host: Seq<char>, port: nat)
    requires
        port <= u16::MAX,
    ensures
        port_of(host + seq![':'] + decimal(port)) == Some(port),
        listen_on(host + seq![':'] + decimal(port)) == (host, port),
{
    let s = host + seq![':'] + decimal(port);
    lemma_decimal_round_trip(port);
    lemma_unsigned_decimal(port, u16::MAX as nat);
    assert forall|k: int| 0 <= k < decimal(port).len() implies decimal(port)[k] != ':' by {
        assert(crate::number::is_digit(decimal(port)[k]));
    }
    lemma_colon(host, decimal(port), s.len() as int);
    assert(s.skip(host.len() as int + 1) =~= decimal(port));
    assert(s.take(host.len() as int) =~= host);
}

} // verus!
