//! Command-line argument handling: one positional URL, a JSON flag, and
//! help; anything else is rejected with the usage text.
use vstd::prelude::*;
use vstd::string::StrSliceExecFns;
use crate::strutil::str_eq;

verus! {

pub open spec fn usage_text() -> Seq<char> {
    "usage: udoc [--json] <URL>\n\nPrints connection report: DNS/TCP/TLS/TTFB timings + cert summary.\n\nOptions:\n  --json, -j    Output as JSON\n\nEnvironment:\n  UDOC_TIMEOUT     Request timeout (e.g. 5s, 3000ms) [default: 5s]\n  UDOC_MAX_REDIRS  Max redirects [default: 10]\n  UDOC_BODY_LIMIT  Body preview limit in bytes [default: 32768]\n  UDOC_REPEAT      Repeat count for stats [default: 1]"@
}

/// The usage text shown by help and on rejected arguments.
pub fn usage() -> (r: String)
    ensures
        r@ == usage_text(),
{
    "usage: udoc [--json] <URL>\n\nPrints connection report: DNS/TCP/TLS/TTFB timings + cert summary.\n\nOptions:\n  --json, -j    Output as JSON\n\nEnvironment:\n  UDOC_TIMEOUT     Request timeout (e.g. 5s, 3000ms) [default: 5s]\n  UDOC_MAX_REDIRS  Max redirects [default: 10]\n  UDOC_BODY_LIMIT  Body preview limit in bytes [default: 32768]\n  UDOC_REPEAT      Repeat count for stats [default: 1]".to_owned()
}

/// One pass over the arguments from position `i`, with the URL and JSON
/// flag collected so far: `--json`/`-j` sets the flag, `--help`/`-h`
/// shows usage, any other dash argument is an unknown option, the first
/// bare argument is the URL and a second one is rejected; at the end
/// the URL must have been given.
pub open spec fn args_step(args: Seq<Seq<char>>, i: int, url: Option<Seq<char>>, json: bool) -> Result<(Seq<char>, bool), Seq<char>>
    decreases args.len() - i,
{
    if i < 0 || i >= args.len() {
        match url {
            Some(u) => Ok((u, json)),
            None => Err(usage_text()),
        }
    } else {
        let a = args[i];
        if a == "--json"@ || a == "-j"@ {
            args_step(args, i + 1, url, true)
        } else if a == "--help"@ || a == "-h"@ {
            Err(usage_text())
        } else if a.len() > 0 && a[0] == '-' {
            Err("unknown option: "@ + a + "\n\n"@ + usage_text())
        } else if url is None {
            args_step(args, i + 1, Some(a), json)
        } else {
            Err("unexpected argument: "@ + a + "\n\n"@ + usage_text())
        }
    }
}

/// The parse of a full argument vector, the program name first.
pub open spec fn parse_args_spec(args: Seq<Seq<char>>) -> Result<(Seq<char>, bool), Seq<char>> {
    args_step(args, 1, None, false)
}

/// Content of an optional collected URL.
pub open spec fn opt_url_view(o: Option<String>) -> Option<Seq<char>> {
    match o {
        Some(s) => Some(s@),
        None => None,
    }
}

/// Parses the argument vector into the URL and the JSON flag, or the
/// message to print when they are rejected.
pub fn parse_args(args: &[String]) -> (r: Result<(String, bool), String>)
    ensures
        match r {
            Ok(p) => parse_args_spec(args@.map_values(|s: String| s@))
                == Ok::<(Seq<char>, bool), Seq<char>>((p.0@, p.1)),
            Err(m) => parse_args_spec(args@.map_values(|s: String| s@))
                == Err::<(Seq<char>, bool), Seq<char>>(m@),
        },
{
    let ghost av = args@.map_values(|s: String| s@);
    let mut url: Option<String> = None;
    let mut json: bool = false;
    let mut i: usize = 1;
    let n = args.len();
    while i < n
        invariant
            1 <= i,
            n == args@.len(),
            av == args@.map_values(|s: String| s@),
            parse_args_spec(av) == args_step(av, i as int, opt_url_view(url), json),
        decreases n - i,
    {
        let a: &str = args[i].as_str();
        proof {
            assert(av[i as int] == a@);
        }
        if str_eq(a, "--json") || str_eq(a, "-j") {
            json = true;
        } else if str_eq(a, "--help") || str_eq(a, "-h") {
            return Err(usage());
        } else if a.unicode_len() > 0 && a.get_char(0) == '-' {
            let mut m = "unknown option: ".to_owned();
            m.append(a);
            m.append("\n\n");
            let u = usage();
            m.append(u.as_str());
            proof {
                assert(m@ =~= "unknown option: "@ + a@ + "\n\n"@ + usage_text());
            }
            return Err(m);
        } else if url.is_none() {
            url = Some(a.to_owned());
        } else {
            let mut m = "unexpected argument: ".to_owned();
            m.append(a);
            m.append("\n\n");
            let u = usage();
            m.append(u.as_str());
            proof {
                assert(m@ =~= "unexpected argument: "@ + a@ + "\n\n"@ + usage_text());
            }
            return Err(m);
        }
        i += 1;
    }
    match url {
        Some(u) => Ok((u, json)),
        None => Err(usage()),
    }
}

/// The shape `shorten_url` returns: the URL whole when it fits, else a
/// prefix with a three-dot ellipsis, the prefix shortened to make room.
pub open spec fn shorten_spec(s: Seq<char>, max: int) -> Seq<char> {
    if s.len() <= max {
        s
    } else {
        s.take(if max >= 3 { max - 3 } else { 0 }) + "..."@
    }
}

/// Shortens a URL for display to at most `max` characters plus an
/// ellipsis.
pub fn shorten_url(url: &str, max: usize) -> (r: String)
    ensures
        r@ == shorten_spec(url@, max as int),
{
    let n = url.unicode_len();
    if n <= max {
        url.to_owned()
    } else {
        let keep: usize = if max >= 3 { max - 3 } else { 0 };
        let mut out = url.substring_char(0, keep).to_owned();
        out.append("...");
        out
    }
}

} // verus!
