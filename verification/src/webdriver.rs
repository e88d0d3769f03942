//! The WebDriver adapter's decisions: endpoint strings, capability and
//! driver command arguments, and the interpretation of protocol replies.
//!
//! The HTTP calls themselves are plain POSTs and DELETEs performed by the
//! caller; everything that decides what to send and what a reply means is
//! verified here, over the named results of JSON field access.

use vstd::prelude::*;

use crate::jsonio::{json_str_at, json_string_at, json_strings_at, json_strs_at};
use crate::strutil::{
    chars_string, contains_seq, dec_str, fmt_u16, lower_seq, lower_vec, str_chars, vec_contains,
};
use crate::types::BrowserArg;
use crate::urlnorm::{string_views, url_host_of, url_port_or_default_of, url_scheme_of};

verus! {

/// `s` with every trailing `/` removed.
pub open spec fn trim_end_slashes(s: Seq<char>) -> Seq<char>
    decreases s.len(),
{
    if s.len() == 0 {
        s
    } else if s.last() == '/' {
        trim_end_slashes(s.drop_last())
    } else {
        s
    }
}

fn trim_slashes(v: &Vec<char>) -> (r: Vec<char>)
    ensures
        r@ == trim_end_slashes(v@),
{
    let mut b: usize = v.len();
    proof {
        assert(v@.subrange(0, v@.len() as int) =~= v@);
    }
    while b > 0 && v[b - 1] == '/'
        invariant
            b <= v@.len(),
            trim_end_slashes(v@) == trim_end_slashes(v@.subrange(0, b as int)),
        decreases b,
    {
        proof {
            assert(v@.subrange(0, b as int).last() == v@[b - 1]);
            assert(v@.subrange(0, b as int).drop_last() =~= v@.subrange(0, b - 1));
        }
        b = b - 1;
    }
    let mut r: Vec<char> = Vec::new();
    let mut i: usize = 0;
    while i < b
        invariant
            i <= b <= v@.len(),
            r@ == v@.subrange(0, i as int),
        decreases b - i,
    {
        r.push(v[i]);
        i = i + 1;
        proof {
            assert(r@ =~= v@.subrange(0, i as int));
        }
    }
    proof {
        let t = v@.subrange(0, b as int);
        if b > 0 {
            assert(t.last() == v@[b - 1]);
            assert(trim_end_slashes(t) == t);
        } else {
            assert(t =~= Seq::<char>::empty());
            assert(trim_end_slashes(t) == t);
        }
        assert(r@ =~= t);
    }
    r
}

/// The endpoint for creating a session.
pub fn session_endpoint(base: &str) -> (r: String)
    ensures
        r@ == trim_end_slashes(base@) + "/session"@,
{
    let bv = str_chars(base);
    let mut t = trim_slashes(&bv);
    let mut tail = str_chars("/session");
    t.append(&mut tail);
    chars_string(&t)
}

/// The endpoint for navigating a session.
pub fn navigate_endpoint(base: &str, session_id: &str) -> (r: String)
    ensures
        r@ == trim_end_slashes(base@) + "/session/"@ + session_id@ + "/url"@,
{
    let bv = str_chars(base);
    let mut t = trim_slashes(&bv);
    let mut a = str_chars("/session/");
    t.append(&mut a);
    let mut s = str_chars(session_id);
    t.append(&mut s);
    let mut b = str_chars("/url");
    t.append(&mut b);
    chars_string(&t)
}

/// The endpoint for running a synchronous script in a session.
pub fn execute_endpoint(base: &str, session_id: &str) -> (r: String)
    ensures
        r@ == trim_end_slashes(base@) + "/session/"@ + session_id@ + "/execute/sync"@,
{
    let bv = str_chars(base);
    let mut t = trim_slashes(&bv);
    let mut a = str_chars("/session/");
    t.append(&mut a);
    let mut s = str_chars(session_id);
    t.append(&mut s);
    let mut b = str_chars("/execute/sync");
    t.append(&mut b);
    chars_string(&t)
}

/// The endpoint for deleting a session.
pub fn delete_endpoint(base: &str, session_id: &str) -> (r: String)
    ensures
        r@ == trim_end_slashes(base@) + "/session/"@ + session_id@,
{
    let bv = str_chars(base);
    let mut t = trim_slashes(&bv);
    let mut a = str_chars("/session/");
    t.append(&mut a);
    let mut s = str_chars(session_id);
    t.append(&mut s);
    chars_string(&t)
}

/// The protocol error in a reply body, if any: the `value.error` name
/// with `value.message`, or the given fallback message.
pub open spec fn wd_error_of(body: Seq<char>, fallback: Seq<char>) -> Option<
    (Seq<char>, Seq<char>),
> {
    match json_str_at(body, "/value/error"@) {
        None => None,
        Some(e) => Some(
            (
                e,
                match json_str_at(body, "/value/message"@) {
                    Some(m) => m,
                    None => fallback,
                },
            ),
        ),
    }
}

/// Read the protocol error out of a WebDriver reply body.
pub fn webdriver_error(body: &str, fallback_message: &str) -> (r: Option<(String, String)>)
    ensures
        r is Some <==> wd_error_of(body@, fallback_message@) is Some,
        r matches Some(p) ==> wd_error_of(body@, fallback_message@) == Some((p.0@, p.1@)),
{
    match json_string_at(body, "/value/error") {
        None => None,
        Some(e) => {
            let m = match json_string_at(body, "/value/message") {
                Some(m) => m,
                None => {
                    let fv = str_chars(fallback_message);
                    chars_string(&fv)
                },
            };
            Some((e, m))
        },
    }
}

/// The session id in a creation reply: `value.sessionId`, or the
/// top-level `sessionId`.
pub open spec fn wd_session_id_of(body: Seq<char>) -> Option<Seq<char>> {
    match json_str_at(body, "/value/sessionId"@) {
        Some(v) => Some(v),
        None => json_str_at(body, "/sessionId"@),
    }
}

/// Read the session id out of a session-creation reply body.
pub fn extract_session_id(body: &str) -> (r: Option<String>)
    ensures
        r is Some <==> wd_session_id_of(body@) is Some,
        r matches Some(v) ==> wd_session_id_of(body@) == Some(v@),
{
    match json_string_at(body, "/value/sessionId") {
        Some(v) => Some(v),
        None => json_string_at(body, "/sessionId"),
    }
}

/// The rendered snapshot in a script reply: `value.url` and `value.html`,
/// present only when both are non-empty.
pub open spec fn wd_snapshot_of(body: Seq<char>) -> Option<(Seq<char>, Seq<char>)> {
    let url = match json_str_at(body, "/value/url"@) {
        Some(v) => v,
        None => Seq::<char>::empty(),
    };
    let html = match json_str_at(body, "/value/html"@) {
        Some(v) => v,
        None => Seq::<char>::empty(),
    };
    if url.len() == 0 || html.len() == 0 {
        None
    } else {
        Some((url, html))
    }
}

/// Read the rendered `(url, html)` snapshot out of a script reply body;
/// `None` when either part is empty.
pub fn interpret_rendered_snapshot(body: &str) -> (r: Option<(String, String)>)
    ensures
        r is Some <==> wd_snapshot_of(body@) is Some,
        r matches Some(p) ==> wd_snapshot_of(body@) == Some((p.0@, p.1@)),
{
    let url = match json_string_at(body, "/value/url") {
        Some(v) => v,
        None => String::new(),
    };
    let html = match json_string_at(body, "/value/html") {
        Some(v) => v,
        None => String::new(),
    };
    if url.as_str().unicode_len() == 0 || html.as_str().unicode_len() == 0 {
        None
    } else {
        Some((url, html))
    }
}

/// The link list in a script reply: the string elements of `value`, or
/// nothing.
pub fn interpret_link_list(body: &str) -> (r: Vec<String>)
    ensures
        string_views(r@) == (match json_strs_at(body@, "/value"@) {
            Some(ls) => ls,
            None => Seq::<Seq<char>>::empty(),
        }),
{
    match json_strings_at(body, "/value") {
        Some(v) => v,
        None => {
            let r: Vec<String> = Vec::new();
            proof {
                assert(string_views(r@) =~= Seq::<Seq<char>>::empty());
            }
            r
        },
    }
}

/// The first `max_chars` characters, with a marker when something was cut.
pub open spec fn truncated_of(s: Seq<char>, max_chars: int) -> Seq<char> {
    if s.len() <= max_chars {
        s
    } else {
        s.subrange(0, max_chars) + "..."@
    }
}

/// Truncate a reply body for inclusion in a log or error message.
pub fn truncate_for_log(input: &str, max_chars: usize) -> (r: String)
    ensures
        r@ == truncated_of(input@, max_chars as int),
{
    let v = str_chars(input);
    if v.len() <= max_chars {
        return chars_string(&v);
    }
    let mut t: Vec<char> = Vec::new();
    let mut i: usize = 0;
    while i < max_chars
        invariant
            i <= max_chars,
            max_chars < v@.len(),
            v@ == input@,
            t@ == v@.subrange(0, i as int),
        decreases max_chars - i,
    {
        t.push(v[i]);
        i = i + 1;
        proof {
            assert(t@ =~= v@.subrange(0, i as int));
        }
    }
    let mut dots = str_chars("...");
    t.append(&mut dots);
    chars_string(&t)
}

/// The browsers tried, in order: the preferred browser (Safari replaced
/// by Chrome), then, when fallbacks are enabled, the fixed fallback order
/// with duplicates dropped.
pub open spec fn browser_candidates_of(preferred: BrowserArg, fallback: bool) -> Seq<BrowserArg> {
    let first = if preferred is Safari {
        BrowserArg::Chrome
    } else {
        preferred
    };
    if !fallback {
        seq![first]
    } else {
        match first {
            BrowserArg::Firefox => seq![
                BrowserArg::Firefox,
                BrowserArg::Chrome,
                BrowserArg::Edge,
            ],
            BrowserArg::Chrome => seq![BrowserArg::Chrome, BrowserArg::Firefox, BrowserArg::Edge],
            BrowserArg::Edge => seq![BrowserArg::Edge, BrowserArg::Chrome, BrowserArg::Firefox],
            BrowserArg::Safari => seq![BrowserArg::Chrome, BrowserArg::Firefox, BrowserArg::Edge],
        }
    }
}

/// The ordered browser candidates for the given preference and fallback
/// setting.
pub fn browser_candidates(preferred: BrowserArg, fallback_enabled: bool) -> (r: Vec<BrowserArg>)
    ensures
        r@ == browser_candidates_of(preferred, fallback_enabled),
{
    let first = match preferred {
        BrowserArg::Safari => BrowserArg::Chrome,
        other => other,
    };
    let mut out: Vec<BrowserArg> = Vec::new();
    out.push(first);
    if !fallback_enabled {
        proof {
            assert(out@ =~= browser_candidates_of(preferred, fallback_enabled));
        }
        return out;
    }
    match first {
        BrowserArg::Firefox => {
            out.push(BrowserArg::Chrome);
            out.push(BrowserArg::Edge);
        },
        BrowserArg::Chrome => {
            out.push(BrowserArg::Firefox);
            out.push(BrowserArg::Edge);
        },
        BrowserArg::Edge => {
            out.push(BrowserArg::Chrome);
            out.push(BrowserArg::Firefox);
        },
        BrowserArg::Safari => {
            out.push(BrowserArg::Firefox);
            out.push(BrowserArg::Edge);
        },
    }
    proof {
        assert(out@ =~= browser_candidates_of(preferred, fallback_enabled));
    }
    out
}

/// A local endpoint rewritten to the loopback address: `localhost` and
/// `127.0.0.1` endpoints become `scheme://127.0.0.1:port` with the known
/// default port filled in; everything else stands.
pub open spec fn normalized_local_endpoint(endpoint: Seq<char>) -> Seq<char> {
    match url_host_of(endpoint) {
        None => endpoint,
        Some(host) => if host != "localhost"@ && host != "127.0.0.1"@ {
            endpoint
        } else {
            let scheme = match url_scheme_of(endpoint) {
                Some(s) => s,
                None => Seq::<char>::empty(),
            };
            let port = match url_port_or_default_of(endpoint) {
                Some(p) => p,
                None => 4444,
            };
            scheme + "://127.0.0.1:"@ + dec_str(port as nat)
        },
    }
}

/// Rewrite a local WebDriver endpoint to its canonical loopback form.
pub fn normalize_local_webdriver_endpoint(endpoint: &str) -> (r: String)
    ensures
        r@ == normalized_local_endpoint(endpoint@),
{
    let host = match crate::urlnorm::url_host(endpoint) {
        None => {
            let ev = str_chars(endpoint);
            return chars_string(&ev);
        },
        Some(h) => h,
    };
    let hv = str_chars(host.as_str());
    if !(crate::strutil::vec_eq_str(&hv, "localhost") || crate::strutil::vec_eq_str(
        &hv,
        "127.0.0.1",
    )) {
        let ev = str_chars(endpoint);
        return chars_string(&ev);
    }
    let scheme = match crate::urlnorm::url_scheme(endpoint) {
        Some(s) => s,
        None => String::new(),
    };
    let port: u16 = match crate::urlnorm::url_port_or_default(endpoint) {
        Some(p) => p,
        None => 4444,
    };
    let mut out = str_chars(scheme.as_str());
    let mut mid = str_chars("://127.0.0.1:");
    out.append(&mut mid);
    let mut pv = fmt_u16(port);
    out.append(&mut pv);
    chars_string(&out)
}

} // verus!

verus! {

/// The Firefox launch arguments: `-headless` when requested.
pub open spec fn firefox_args_of(headless: bool) -> Seq<Seq<char>> {
    if headless {
        seq!["-headless"@]
    } else {
        Seq::<Seq<char>>::empty()
    }
}

/// Build the Firefox launch arguments.
pub fn firefox_capability_args(headless: bool) -> (r: Vec<String>)
    ensures
        string_views(r@) == firefox_args_of(headless),
{
    let mut out: Vec<String> = Vec::new();
    if headless {
        out.push(String::from_str("-headless"));
    }
    proof {
        assert(string_views(out@) =~= firefox_args_of(headless));
    }
    out
}

/// The Edge launch arguments: `--headless=new` when requested, then the
/// cache-disabling flags.
pub open spec fn edge_args_of(headless: bool) -> Seq<Seq<char>> {
    (if headless {
        seq!["--headless=new"@]
    } else {
        Seq::<Seq<char>>::empty()
    }) + seq![
        "--aggressive-cache-discard"@,
        "--disable-cache"@,
        "--disable-application-cache"@,
        "--disable-offline-load-stale-cache"@,
        "--disk-cache-size=0"@,
        "--media-cache-size=0"@,
    ]
}

/// Build the Edge launch arguments.
pub fn edge_capability_args(headless: bool) -> (r: Vec<String>)
    ensures
        string_views(r@) == edge_args_of(headless),
{
    let mut out: Vec<String> = Vec::new();
    if headless {
        out.push(String::from_str("--headless=new"));
    }
    out.push(String::from_str("--aggressive-cache-discard"));
    out.push(String::from_str("--disable-cache"));
    out.push(String::from_str("--disable-application-cache"));
    out.push(String::from_str("--disable-offline-load-stale-cache"));
    out.push(String::from_str("--disk-cache-size=0"));
    out.push(String::from_str("--media-cache-size=0"));
    proof {
        assert(string_views(out@) =~= edge_args_of(headless));
    }
    out
}

/// The Chrome launch arguments: a fresh profile directory, headless when
/// requested, a fixed window, debugging and cache flags, and
/// `--no-sandbox` where the platform wants it.
pub open spec fn chrome_args_of(headless: bool, profile_dir: Seq<char>, no_sandbox: bool) -> Seq<
    Seq<char>,
> {
    seq!["--user-data-dir="@ + profile_dir] + (if headless {
        seq!["--headless"@]
    } else {
        Seq::<Seq<char>>::empty()
    }) + seq![
        "--window-size=1400,1200"@,
        "--disable-gpu"@,
        "--disable-dev-shm-usage"@,
        "--remote-debugging-port=0"@,
        "--no-first-run"@,
        "--no-default-browser-check"@,
        "--disable-crash-reporter"@,
        "--aggressive-cache-discard"@,
        "--disable-cache"@,
        "--disable-application-cache"@,
        "--disable-offline-load-stale-cache"@,
        "--disk-cache-size=0"@,
        "--media-cache-size=0"@,
    ] + (if no_sandbox {
        seq!["--no-sandbox"@]
    } else {
        Seq::<Seq<char>>::empty()
    })
}

/// Build the Chrome launch arguments for a given temporary profile
/// directory.
#[verifier::rlimit(100)]
pub fn chrome_capability_args(headless: bool, profile_dir: &str, no_sandbox: bool) -> (r: Vec<
    String,
>)
    ensures
        string_views(r@) == chrome_args_of(headless, profile_dir@, no_sandbox),
{
    let mut out: Vec<String> = Vec::new();
    let mut first = str_chars("--user-data-dir=");
    let mut pv = str_chars(profile_dir);
    first.append(&mut pv);
    out.push(chars_string(&first));
    if headless {
        out.push(String::from_str("--headless"));
    }
    out.push(String::from_str("--window-size=1400,1200"));
    out.push(String::from_str("--disable-gpu"));
    out.push(String::from_str("--disable-dev-shm-usage"));
    out.push(String::from_str("--remote-debugging-port=0"));
    out.push(String::from_str("--no-first-run"));
    out.push(String::from_str("--no-default-browser-check"));
    out.push(String::from_str("--disable-crash-reporter"));
    out.push(String::from_str("--aggressive-cache-discard"));
    out.push(String::from_str("--disable-cache"));
    out.push(String::from_str("--disable-application-cache"));
    out.push(String::from_str("--disable-offline-load-stale-cache"));
    out.push(String::from_str("--disk-cache-size=0"));
    out.push(String::from_str("--media-cache-size=0"));
    if no_sandbox {
        out.push(String::from_str("--no-sandbox"));
    }
    proof {
        assert(string_views(out@) =~= chrome_args_of(headless, profile_dir@, no_sandbox));
    }
    out
}

/// The command-line arguments handed to the driver binary: safaridriver
/// and geckodriver take `--port N`; chromedriver-style drivers take
/// `--port=N`, open origins, optionally an allowed-IPs list, and a quiet
/// log level.
pub open spec fn driver_args_of(
    bin: Seq<char>,
    safari: bool,
    port: u16,
    allowed_ips: Option<Seq<char>>,
) -> Seq<Seq<char>> {
    let lower = lower_seq(bin);
    if safari || contains_seq(lower, "safaridriver"@) || contains_seq(lower, "geckodriver"@) {
        seq!["--port"@, dec_str(port as nat)]
    } else {
        seq!["--port="@ + dec_str(port as nat), "--allowed-origins=*"@] + (match allowed_ips {
            Some(ips) => seq!["--allowed-ips="@ + ips],
            None => Seq::<Seq<char>>::empty(),
        }) + (if contains_seq(lower, "chromedriver"@) {
            seq!["--log-level=SEVERE"@]
        } else {
            Seq::<Seq<char>>::empty()
        })
    }
}

/// Build the driver command arguments for a binary, browser and port.
#[verifier::rlimit(100)]
pub fn configure_webdriver_args(
    bin: &str,
    browser: BrowserArg,
    port: u16,
    allowed_ips: Option<&str>,
) -> (r: Vec<String>)
    ensures
        string_views(r@) == driver_args_of(
            bin@,
            browser is Safari,
            port,
            crate::urlnorm::opt_view(allowed_ips),
        ),
{
    let bv = str_chars(bin);
    let lower = lower_vec(&bv);
    let safaridrv = str_chars("safaridriver");
    let geckodrv = str_chars("geckodriver");
    let chromedrv = str_chars("chromedriver");
    let is_safari = match browser {
        BrowserArg::Safari => true,
        _ => false,
    };
    let mut out: Vec<String> = Vec::new();
    if is_safari || vec_contains(&lower, &safaridrv) || vec_contains(&lower, &geckodrv) {
        out.push(String::from_str("--port"));
        let p = fmt_u16(port);
        out.push(chars_string(&p));
        proof {
            assert(string_views(out@) =~= driver_args_of(
                bin@,
                browser is Safari,
                port,
                crate::urlnorm::opt_view(allowed_ips),
            ));
        }
        return out;
    }
    let mut parg = str_chars("--port=");
    let mut pv = fmt_u16(port);
    parg.append(&mut pv);
    out.push(chars_string(&parg));
    out.push(String::from_str("--allowed-origins=*"));
    match allowed_ips {
        Some(ips) => {
            let mut iarg = str_chars("--allowed-ips=");
            let mut iv = str_chars(ips);
            iarg.append(&mut iv);
            out.push(chars_string(&iarg));
        },
        None => {},
    }
    if vec_contains(&lower, &chromedrv) {
        out.push(String::from_str("--log-level=SEVERE"));
    }
    proof {
        assert(string_views(out@) =~= driver_args_of(
            bin@,
            browser is Safari,
            port,
            crate::urlnorm::opt_view(allowed_ips),
        ));
    }
    out
}

} // verus!
