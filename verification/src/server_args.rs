//! The command line of the server.
use crate::number::{parse_unsigned, unsigned};
use crate::text::{from_chars, owned, same, to_chars};
use vstd::prelude::*;

verus! {

/// How long an idle server waits before it ends, in seconds.
pub const DEFAULT_HTTP_IDLE_TIMEOUT_SECS: u64 = 600;

/// How the server is to run.
#[derive(Debug)]
pub struct ServerArgs {
    pub verbose: bool,
    pub log_to_stderr: bool,
    pub http_mode: bool,
    pub http_bind: String,
    pub idle_timeout: Option<u64>,
    pub dry_run: bool,
    pub diagnose: bool,
}

/// How the server is to run, as a mathematical value.
#[verifier::ext_equal]
pub ghost struct ArgsView {
    pub verbose: bool,
    pub log_to_stderr: bool,
    pub http_mode: bool,
    pub http_bind: Seq<char>,
    pub idle_timeout: Option<u64>,
    pub dry_run: bool,
    pub diagnose: bool,
}

impl View for ServerArgs {
    type V = ArgsView;

    open spec fn view(&self) -> ArgsView {
        ArgsView {
            verbose: self.verbose,
            log_to_stderr: self.log_to_stderr,
            http_mode: self.http_mode,
            http_bind: self.http_bind@,
            idle_timeout: self.idle_timeout,
            dry_run: self.dry_run,
            diagnose: self.diagnose,
        }
    }
}

/// What the command line asks for.
#[derive(Debug)]
pub enum Request {
    /// To run.
    Run(ServerArgs),
    /// To tell how it is used.
    Help,
    /// To tell its version.
    Version,
    /// To wait for something that is no number of seconds.
    BadTimeout(String),
    /// To wait, without a number of seconds.
    NoTimeout,
    /// Something that it does not know.
    Unknown(String),
}

/// What the command line asks for, as a mathematical value.
pub ghost enum RequestView {
    Run(ArgsView),
    Help,
    Version,
    BadTimeout(Seq<char>),
    NoTimeout,
    Unknown(Seq<char>),
}

impl View for Request {
    type V = RequestView;

    open spec fn view(&self) -> RequestView {
        match self {
            Request::Run(a) => RequestView::Run(a@),
            Request::Help => RequestView::Help,
            Request::Version => RequestView::Version,
            Request::BadTimeout(s) => RequestView::BadTimeout(s@),
            Request::NoTimeout => RequestView::NoTimeout,
            Request::Unknown(s) => RequestView::Unknown(s@),
        }
    }
}

/// How the server runs when nothing is asked for.
pub open spec fn default_args() -> ArgsView {
    ArgsView {
        verbose: false,
        log_to_stderr: false,
        http_mode: false,
        http_bind: "127.0.0.1:3000"@,
        idle_timeout: Some(DEFAULT_HTTP_IDLE_TIMEOUT_SECS),
        dry_run: false,
        diagnose: false,
    }
}

/// Whether the argument behind `i` is a value, and no option.
pub open spec fn has_value(args: Seq<String>, i: int) -> bool {
    i + 1 < args.len() && !(args[i + 1]@.len() > 0 && args[i + 1]@[0] == '-')
}

/// The time to wait that a number of seconds stands for: zero is for ever.
pub open spec fn timeout_of(n: nat) -> Option<u64> {
    if n == 0 {
        None
    } else {
        Some(n as u64)
    }
}

/// What the arguments from `i` on ask for, when those before came to `a`. The
/// first that asks for something else than to run decides.
pub open spec fn request_from(args: Seq<String>, i: int, a: ArgsView) -> RequestView
    decreases args.len() - i,
{
    if i < 0 || i >= args.len() {
        RequestView::Run(a)
    } else if args[i]@ == "-h"@ || args[i]@ == "--help"@ {
        RequestView::Help
    } else if args[i]@ == "-V"@ || args[i]@ == "--version"@ {
        RequestView::Version
    } else if args[i]@ == "-v"@ || args[i]@ == "--verbose"@ {
        request_from(args, i + 1, ArgsView { verbose: true, ..a })
    } else if args[i]@ == "--log-to-stderr"@ {
        request_from(args, i + 1, ArgsView { log_to_stderr: true, ..a })
    } else if args[i]@ == "--diagnose"@ {
        request_from(args, i + 1, ArgsView { diagnose: true, ..a })
    } else if args[i]@ == "--http"@ {
        if has_value(args, i) {
            request_from(
                args,
                i + 2,
                ArgsView { http_mode: true, http_bind: args[i + 1]@, ..a },
            )
        } else {
            request_from(args, i + 1, ArgsView { http_mode: true, ..a })
        }
    } else if args[i]@ == "--idle-timeout"@ {
        if has_value(args, i) {
            match unsigned(args[i + 1]@, u64::MAX as nat) {
                Some(n) => request_from(
                    args,
                    i + 2,
                    ArgsView { idle_timeout: timeout_of(n), ..a },
                ),
                None => RequestView::BadTimeout(args[i + 1]@),
            }
        } else {
            RequestView::NoTimeout
        }
    } else if args[i]@ == "--dry-run"@ {
        request_from(args, i + 1, ArgsView { dry_run: true, ..a })
    } else {
        RequestView::Unknown(args[i]@)
    }
}

/// What the command line asks for. The first argument is the program.
pub open spec fn request_of(args: Seq<String>) -> RequestView {
    request_from(args, 1, default_args())
}

fn value_behind(args: &Vec<String>, i: usize) -> (r: bool)
    requires
        i < args@.len(),
    ensures
        r == has_value(args@, i as int),
{
    let n: usize = args.len();
    if n - i <= 1 {
        return false;
    }
    let c = to_chars(args[i + 1].as_str());
    !(c.len() > 0 && c[0] == '-')
}

/// What the command line asks for.
pub fn parse_args(args: &Vec<String>) -> (r: Request)
    ensures
        r@ == request_of(args@),
{
    let mut a = ServerArgs {
        verbose: false,
        log_to_stderr: false,
        http_mode: false,
        http_bind: owned("127.0.0.1:3000"),
        idle_timeout: Some(DEFAULT_HTTP_IDLE_TIMEOUT_SECS),
        dry_run: false,
        diagnose: false,
    };
    assert(a@ =~= default_args());
    let n: usize = args.len();
    let mut i: usize = 1;
    while i < n
        invariant
            n == args@.len(),
            1 <= i,
            request_from(args@, i as int, a@) == request_of(args@),
        decreases n - i,
    {
        let ghost before = a@;
        let arg = args[i].as_str();
        if same(arg, "-h") || same(arg, "--help") {
            return Request::Help;
        }
        if same(arg, "-V") || same(arg, "--version") {
            return Request::Version;
        }
        if same(arg, "-v") || same(arg, "--verbose") {
            a.verbose = true;
            assert(a@ =~= (ArgsView { verbose: true, ..before }));
            i += 1;
        } else if same(arg, "--log-to-stderr") {
            a.log_to_stderr = true;
            assert(a@ =~= (ArgsView { log_to_stderr: true, ..before }));
            i += 1;
        } else if same(arg, "--diagnose") {
            a.diagnose = true;
            assert(a@ =~= (ArgsView { diagnose: true, ..before }));
            i += 1;
        } else if same(arg, "--http") {
            a.http_mode = true;
            if value_behind(args, i) {
                a.http_bind = owned(args[i + 1].as_str());
                assert(a@ =~= (ArgsView {
                    http_mode: true,
                    http_bind: args@[i + 1]@,
                    ..before
                }));
                i += 2;
            } else {
                assert(a@ =~= (ArgsView { http_mode: true, ..before }));
                i += 1;
            }
        } else if same(arg, "--idle-timeout") {
            if !value_behind(args, i) {
                return Request::NoTimeout;
            }
            match parse_unsigned(args[i + 1].as_str(), u64::MAX) {
                Some(t) => {
                    a.idle_timeout = if t == 0 {
                        None
                    } else {
                        Some(t)
                    };
                    assert(a@ =~= (ArgsView { idle_timeout: timeout_of(t as nat), ..before }));
                    i += 2;
                },
                None => {
                    return Request::BadTimeout(owned(args[i + 1].as_str()));
                },
            }
        } else if same(arg, "--dry-run") {
            a.dry_run = true;
            assert(a@ =~= (ArgsView { dry_run: true, ..before }));
            i += 1;
        } else {
            return Request::Unknown(owned(arg));
        }
    }
    Request::Run(a)
}

// ── Where to listen ──────────────────────────────────────────────────
/// Where the last colon of the first `n` characters stands.
pub open spec fn last_colon(s: Seq<char>, n: int) -> Option<int>
    decreases n,
{
    if n <= 0 {
        None
    } else if s[n - 1] == ':' {
        Some(n - 1)
    } else {
        last_colon(s, n - 1)
    }
}

/// The port of an address, if it has one.
pub open spec fn port_of(bind: Seq<char>) -> Option<nat> {
    match last_colon(bind, bind.len() as int) {
        Some(c) => unsigned(bind.skip(c + 1), u16::MAX as nat),
        None => None,
    }
}

fn find_last_colon(s: &Vec<char>) -> (r: Option<usize>)
    ensures
        match r {
            Some(c) => last_colon(s@, s@.len() as int) == Some(c as int) && c < s@.len(),
            None => last_colon(s@, s@.len() as int) is None,
        },
{
    let mut n: usize = s.len();
    while n > 0
        invariant
            n <= s@.len(),
            last_colon(s@, n as int) == last_colon(s@, s@.len() as int),
        decreases n,
    {
        if s[n - 1] == ':' {
            return Some(n - 1);
        }
        n -= 1;
    }
    None
}

/// The port of an address, if it has one.
pub fn http_port(bind: &str) -> (r: Option<u16>)
    ensures
        match r {
            Some(p) => port_of(bind@) == Some(p as nat),
            None => port_of(bind@) is None,
        },
{
    let s = to_chars(bind);
    match find_last_colon(&s) {
        Some(c) => {
            let port = from_chars(&s, c + 1, s.len());
            assert(port@ =~= bind@.skip(c + 1));
            match parse_unsigned(port.as_str(), u16::MAX as u64) {
                Some(n) => Some(n as u16),
                None => None,
            }
        },
        None => None,
    }
}

/// The host and the port to listen on: a port that is no number is 3000, and
/// without a colon nothing of the address counts.
pub open spec fn listen_on(bind: Seq<char>) -> (Seq<char>, nat) {
    match last_colon(bind, bind.len() as int) {
        Some(c) => (
            bind.take(c),
            match port_of(bind) {
                Some(p) => p,
                None => 3000,
            },
        ),
        None => ("127.0.0.1"@, 3000),
    }
}

/// The host and the port to listen on.
pub fn listen_address(bind: &str) -> (r: (String, u16))
    ensures
        (r.0@, r.1 as nat) == listen_on(bind@),
{
    let s = to_chars(bind);
    match find_last_colon(&s) {
        Some(c) => {
            let host = from_chars(&s, 0, c);
            assert(host@ =~= bind@.take(c as int));
            let port: u16 = match http_port(bind) {
                Some(p) => p,
                None => 3000,
            };
            (host, port)
        },
        None => (owned("127.0.0.1"), 3000),
    }
}

} // verus!
