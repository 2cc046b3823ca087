//! WhatsApp links: turning `whatsapp://` links and `chat.whatsapp.com`
//! invitations into WhatsApp Web addresses, telling internal addresses (those
//! on a WhatsApp host) from external ones, and the script that sends the web
//! view to a link's address.
use vstd::prelude::*;

use crate::text::append_chars;
use crate::text::before_first;
use crate::text::before_first_exec;
use crate::text::chars_of;
use crate::text::contains;
use crate::text::contains_exec;
use crate::text::find_from;
use crate::text::find_from_exec;
use crate::text::lemma_find_from_contains;
use crate::text::lemma_before_first_piece;
use crate::text::lemma_trim_outside;
use crate::text::trim;
use crate::text::occurs_at;
use crate::text::occurs_at_exec;
use crate::text::same_chars;
use crate::text::last_index_of;
use crate::text::last_index_of_exec;
use crate::text::slice_chars_all;
use crate::text::lemma_last_index_of_bounds;
use crate::text::slice_chars;
use crate::text::starts_with;
use crate::text::string_from_chars;
use crate::text::trim_char;
use crate::text::trim_exec;
use crate::text::TrimClass;

verus! {

// ---------------------------------------------------------------------------
// Specifications
// ---------------------------------------------------------------------------

/// The piece of `s` that `s.split(key).nth(1)` gives: what follows the first
/// occurrence of `key`, up to its next occurrence or the end.
pub open spec fn segment_after(s: Seq<char>, key: Seq<char>) -> Option<Seq<char>> {
    match find_from(s, key, 0) {
        Some(i) => {
            let rest = s.skip(i + key.len());
            Some(
                match find_from(rest, key, 0) {
                    Some(j) => rest.take(j),
                    None => rest,
                },
            )
        },
        None => None,
    }
}

/// The phone number carried by a `phone=` parameter value.
pub open spec fn phone_value(p: Seq<char>) -> Seq<char> {
    trim_char(trim_char(before_first(p, '&'), '"'), '\'')
}

/// The invitation code carried by a `code=` parameter value.
pub open spec fn code_value(c: Seq<char>) -> Seq<char> {
    trim_char(trim_char(trim_char(before_first(c, '&'), '/'), '"'), '\'')
}

/// What follows the host part of a `chat.whatsapp.com` invitation link.
pub open spec fn invite_rest(link: Seq<char>) -> Option<Seq<char>> {
    if starts_with(link, "https://chat.whatsapp.com/"@) {
        Some(link.skip("https://chat.whatsapp.com/"@.len() as int))
    } else if starts_with(link, "http://chat.whatsapp.com/"@) {
        Some(link.skip("http://chat.whatsapp.com/"@.len() as int))
    } else {
        None
    }
}

/// The invitation code of an invitation link: the path after the host, up to
/// a query or fragment, without surrounding slashes.
pub open spec fn invite_code(rest: Seq<char>) -> Seq<char> {
    trim_char(before_first(before_first(rest, '?'), '#'), '/')
}

/// The WhatsApp Web address that a link stands for, if any: `whatsapp://send`
/// links open a chat with their `phone=` number, `whatsapp://chat` links and
/// `chat.whatsapp.com` invitation links open the invitation of their code.
pub open spec fn whatsapp_web_url(link: Seq<char>) -> Option<Seq<char>> {
    if starts_with(link, "whatsapp://send"@) {
        match segment_after(link, "phone="@) {
            Some(p) => Some("https://web.whatsapp.com/send?phone="@ + phone_value(p)),
            None => None,
        }
    } else if starts_with(link, "whatsapp://chat"@) {
        match segment_after(link, "code="@) {
            Some(c) => Some("https://web.whatsapp.com/accept?code="@ + code_value(c)),
            None => None,
        }
    } else {
        match invite_rest(link) {
            Some(rest) => if invite_code(rest).len() > 0 {
                Some("https://web.whatsapp.com/accept?code="@ + invite_code(rest))
            } else {
                None
            },
            None => None,
        }
    }
}

/// An ASCII letter.
pub open spec fn is_ascii_letter(c: char) -> bool {
    let u = c as u32;
    (0x41 <= u <= 0x5a) || (0x61 <= u <= 0x7a)
}

/// A character that may appear in a URL scheme.
pub open spec fn is_scheme_char(c: char) -> bool {
    let u = c as u32;
    is_ascii_letter(c) || (0x30 <= u <= 0x39) || c == '+' || c == '-' || c == '.'
}

/// A character that ends the authority part of a URL (user info, host and port).
pub open spec fn ends_authority(c: char) -> bool {
    c == '/' || c == '?' || c == '#'
}

/// A character that ends the host part of a URL.
pub open spec fn ends_host(c: char) -> bool {
    ends_authority(c) || c == ':'
}

/// The characters that make up a run at the start of a URL part.
#[derive(Clone, Copy)]
pub enum RunClass {
    /// Scheme characters.
    Scheme,
    /// Characters of an authority.
    Authority,
    /// Characters of a host.
    Host,
}

impl RunClass {
    pub open spec fn holds(self, c: char) -> bool {
        match self {
            RunClass::Scheme => is_scheme_char(c),
            RunClass::Authority => !ends_authority(c),
            RunClass::Host => !ends_host(c),
        }
    }
}

/// The number of characters of class `k` at the start of `s`.
pub open spec fn leading_run(s: Seq<char>, k: RunClass) -> nat
    decreases s.len(),
{
    if s.len() > 0 && k.holds(s[0]) {
        1 + leading_run(s.drop_first(), k)
    } else {
        0
    }
}

/// The authority of `url` when it has the form `scheme://authority...`: the
/// part after `://` up to the first `/`, `?` or `#`.
pub open spec fn authority_of(url: Seq<char>) -> Option<Seq<char>> {
    let n = leading_run(url, RunClass::Scheme) as int;
    if n > 0 && is_ascii_letter(url[0]) && occurs_at(url, "://"@, n) {
        let rest = url.skip(n + 3);
        Some(rest.take(leading_run(rest, RunClass::Authority) as int))
    } else {
        None
    }
}

/// The host named by an authority: what follows its last `@` (the user
/// info before it left out), up to a `:` that starts the port.
pub open spec fn host_in_authority(auth: Seq<char>) -> Seq<char> {
    let h = match last_index_of(auth, '@') {
        Some(i) => auth.skip(i + 1),
        None => auth,
    };
    h.take(leading_run(h, RunClass::Host) as int)
}

/// The host of `url` when it has the form `scheme://authority...`.
pub open spec fn host_of(url: Seq<char>) -> Option<Seq<char>> {
    match authority_of(url) {
        Some(auth) => Some(host_in_authority(auth)),
        None => None,
    }
}

/// The host that `url` belongs to; a `blob:` URL belongs to the host of the
/// URL it wraps.
pub open spec fn url_host(url: Seq<char>) -> Option<Seq<char>> {
    if starts_with(url, "blob:"@) {
        host_of(url.skip("blob:"@.len() as int))
    } else {
        host_of(url)
    }
}

/// One of the hosts of WhatsApp that the window shows itself.
pub open spec fn is_whatsapp_host(h: Seq<char>) -> bool {
    ||| h == "web.whatsapp.com"@
    ||| h == "wa.me"@
    ||| h == "api.whatsapp.com"@
    ||| h == "chat.whatsapp.com"@
}

/// An address on a WhatsApp host: it stays inside the application window,
/// and every other address is opened in the system browser.
pub open spec fn is_internal(url: Seq<char>) -> bool {
    match url_host(url) {
        Some(h) => is_whatsapp_host(h),
        None => false,
    }
}

/// A command-line argument that is a WhatsApp link for the running instance.
pub open spec fn is_link_arg(arg: Seq<char>) -> bool {
    starts_with(arg, "whatsapp://"@) || contains(arg, "chat.whatsapp.com"@)
}

/// `s` with a backslash put before every double quote, so that it can stand
/// inside a double-quoted script string.
pub open spec fn escape_quotes(s: Seq<char>) -> Seq<char>
    decreases s.len(),
{
    if s.len() == 0 {
        s
    } else if s.last() == '"' {
        escape_quotes(s.drop_last()) + seq!['\\', '"']
    } else {
        escape_quotes(s.drop_last()).push(s.last())
    }
}

/// The script that sends the web view to `web_url`.
pub open spec fn navigation_script(web_url: Seq<char>) -> Seq<char> {
    "window.location.assign(\""@ + escape_quotes(web_url) + "\");"@
}

// ---------------------------------------------------------------------------
// Executable functions
// ---------------------------------------------------------------------------

/// What follows the first occurrence of `key` in `s`, up to its next occurrence.
fn segment_after_exec(s: &Vec<char>, key: &Vec<char>) -> (r: Option<Vec<char>>)
    ensures
        match r {
            Some(v) => segment_after(s@, key@) == Some(v@),
            None => segment_after(s@, key@) is None,
        },
{
    match find_from_exec(s, key, 0) {
        Some(i) => {
            proof {
                lemma_find_from_contains(s@, key@, 0);
                assert(occurs_at(s@, key@, i as int));
            }
            let n = s.len();
            assert(i + key@.len() <= n);
            let rest = slice_chars(s, i + key.len(), n);
            assert(rest@ =~= s@.skip(i + key@.len()));
            match find_from_exec(&rest, key, 0) {
                Some(j) => {
                    proof {
                        lemma_find_from_contains(rest@, key@, 0);
                    }
                    let piece = slice_chars(&rest, 0, j);
                    assert(piece@ =~= rest@.take(j as int));
                    Some(piece)
                },
                None => Some(rest),
            }
        },
        None => None,
    }
}

/// Turns a `whatsapp://send?phone=..` link, a `whatsapp://chat?code=..` link or
/// a `https://chat.whatsapp.com/<code>` invitation into the WhatsApp Web
/// address that opens the same chat or invitation; `None` for any other link.
pub fn parse_whatsapp_link(link: &str) -> (r: Option<String>)
    ensures
        match r {
            Some(u) => whatsapp_web_url(link@) == Some(u@),
            None => whatsapp_web_url(link@) is None,
        },
{
    let s = chars_of(link);
    let send = chars_of("whatsapp://send");
    let chat = chars_of("whatsapp://chat");
    if occurs_at_exec(&s, &send, 0) {
        let key = chars_of("phone=");
        match segment_after_exec(&s, &key) {
            Some(p) => {
                let v = before_first_exec(&p, '&');
                let v = trim_exec(&v, TrimClass::Only('"'));
                let v = trim_exec(&v, TrimClass::Only('\''));
                let mut out = chars_of("https://web.whatsapp.com/send?phone=");
                append_chars(&mut out, &v);
                Some(string_from_chars(&out))
            },
            None => None,
        }
    } else if occurs_at_exec(&s, &chat, 0) {
        let key = chars_of("code=");
        match segment_after_exec(&s, &key) {
            Some(c) => {
                let v = before_first_exec(&c, '&');
                let v = trim_exec(&v, TrimClass::Only('/'));
                let v = trim_exec(&v, TrimClass::Only('"'));
                let v = trim_exec(&v, TrimClass::Only('\''));
                let mut out = chars_of("https://web.whatsapp.com/accept?code=");
                append_chars(&mut out, &v);
                Some(string_from_chars(&out))
            },
            None => None,
        }
    } else {
        match invite_rest_exec(&s) {
            Some(rest) => {
                let v = before_first_exec(&rest, '?');
                let v = before_first_exec(&v, '#');
                let v = trim_exec(&v, TrimClass::Only('/'));
                if v.len() > 0 {
                    let mut out = chars_of("https://web.whatsapp.com/accept?code=");
                    append_chars(&mut out, &v);
                    Some(string_from_chars(&out))
                } else {
                    None
                }
            },
            None => None,
        }
    }
}

/// What follows the host part of a `chat.whatsapp.com` invitation link.
fn invite_rest_exec(s: &Vec<char>) -> (r: Option<Vec<char>>)
    ensures
        match r {
            Some(v) => invite_rest(s@) == Some(v@),
            None => invite_rest(s@) is None,
        },
{
    let https = chars_of("https://chat.whatsapp.com/");
    let http = chars_of("http://chat.whatsapp.com/");
    if occurs_at_exec(s, &https, 0) {
        let r = slice_chars(s, https.len(), s.len());
        assert(r@ =~= s@.skip(https@.len() as int));
        Some(r)
    } else if occurs_at_exec(s, &http, 0) {
        let r = slice_chars(s, http.len(), s.len());
        assert(r@ =~= s@.skip(http@.len() as int));
        Some(r)
    } else {
        None
    }
}

/// The number of characters of class `k` at the start of `s`.
fn leading_run_exec(s: &Vec<char>, k: RunClass) -> (r: usize)
    ensures
        r == leading_run(s@, k),
        r <= s@.len(),
{
    let n = s.len();
    let mut i: usize = 0;
    assert(s@.skip(0) =~= s@);
    while i < n && run_class_holds(k, s[i])
        invariant
            n == s@.len(),
            i <= n,
            leading_run(s@, k) == i + leading_run(s@.skip(i as int), k),
        decreases n - i,
    {
        assert(s@.skip(i as int).drop_first() =~= s@.skip(i + 1));
        i = i + 1;
    }
    i
}

fn run_class_holds(k: RunClass, c: char) -> (r: bool)
    ensures
        r == k.holds(c),
{
    let u = c as u32;
    let letter = (0x41 <= u && u <= 0x5a) || (0x61 <= u && u <= 0x7a);
    match k {
        RunClass::Scheme => letter || (0x30 <= u && u <= 0x39) || c == '+' || c == '-' || c == '.',
        RunClass::Authority => !(c == '/' || c == '?' || c == '#'),
        RunClass::Host => !(c == '/' || c == '?' || c == '#' || c == ':'),
    }
}

/// The host of `url` when it has the form `scheme://host...`.
fn host_of_exec(s: &Vec<char>) -> (r: Option<Vec<char>>)
    ensures
        match r {
            Some(h) => host_of(s@) == Some(h@),
            None => host_of(s@) is None,
        },
{
    let n = leading_run_exec(s, RunClass::Scheme);
    if n == 0 {
        return None;
    }
    assert(s@.len() > 0);
    let u = s[0] as u32;
    if !((0x41 <= u && u <= 0x5a) || (0x61 <= u && u <= 0x7a)) {
        return None;
    }
    let sep = chars_of("://");
    proof {
        reveal_strlit("://");
    }
    if !occurs_at_exec(s, &sep, n) {
        return None;
    }
    let len = s.len();
    assert(n + 3 <= len);
    let rest = slice_chars(s, n + 3, len);
    assert(rest@ =~= s@.skip(n + 3));
    let m = leading_run_exec(&rest, RunClass::Authority);
    let auth = slice_chars(&rest, 0, m);
    assert(auth@ =~= rest@.take(m as int));
    assert(authority_of(s@) == Some(auth@));
    let after_user = match last_index_of_exec(&auth, '@') {
        Some(i) => {
            proof {
                lemma_last_index_of_bounds(auth@, '@');
            }
            let v = slice_chars(&auth, i + 1, auth.len());
            assert(v@ =~= auth@.skip(i + 1));
            v
        },
        None => slice_chars_all(&auth),
    };
    let k = leading_run_exec(&after_user, RunClass::Host);
    let h = slice_chars(&after_user, 0, k);
    assert(h@ =~= after_user@.take(k as int));
    Some(h)
}

/// The host that `url` belongs to, looking inside `blob:` URLs.
fn url_host_exec(s: &Vec<char>) -> (r: Option<Vec<char>>)
    ensures
        match r {
            Some(h) => url_host(s@) == Some(h@),
            None => url_host(s@) is None,
        },
{
    let blob = chars_of("blob:");
    if occurs_at_exec(s, &blob, 0) {
        let inner = slice_chars(s, blob.len(), s.len());
        assert(inner@ =~= s@.skip(blob@.len() as int));
        host_of_exec(&inner)
    } else {
        host_of_exec(s)
    }
}

/// Whether `url_str` is a WhatsApp address that the window may navigate to
/// itself; other addresses are opened in the system browser.
pub fn is_internal_url(url_str: &str) -> (r: bool)
    ensures
        r == is_internal(url_str@),
{
    let s = chars_of(url_str);
    match url_host_exec(&s) {
        Some(h) => same_chars(&h, &chars_of("web.whatsapp.com")) || same_chars(
            &h,
            &chars_of("wa.me"),
        ) || same_chars(&h, &chars_of("api.whatsapp.com")) || same_chars(
            &h,
            &chars_of("chat.whatsapp.com"),
        ),
        None => false,
    }
}

/// Whether a command-line argument handed to the running instance is a
/// WhatsApp link that it should open.
pub fn is_link_argument(arg: &str) -> (r: bool)
    ensures
        r == is_link_arg(arg@),
{
    let s = chars_of(arg);
    occurs_at_exec(&s, &chars_of("whatsapp://"), 0) || contains_exec(
        &s,
        &chars_of("chat.whatsapp.com"),
    )
}

/// `s` with a backslash put before every double quote.
pub fn escape_quotes_exec(s: &Vec<char>) -> (r: Vec<char>)
    ensures
        r@ == escape_quotes(s@),
{
    let mut r: Vec<char> = Vec::new();
    let n = s.len();
    for i in 0..n
        invariant
            n == s@.len(),
            r@ == escape_quotes(s@.take(i as int)),
    {
        assert(s@.take(i + 1).drop_last() =~= s@.take(i as int));
        if s[i] == '"' {
            r.push('\\');
            r.push('"');
            assert(r@ =~= escape_quotes(s@.take(i as int)) + seq!['\\', '"']);
        } else {
            r.push(s[i]);
        }
    }
    assert(s@.take(n as int) =~= s@);
    r
}

/// Decides what opening the link `url` does: when link handling is enabled
/// and `url` is a WhatsApp link, the script that sends the main window to its
/// web address (the caller then runs it and brings the window to the front);
/// otherwise `None`, and nothing happens.
pub fn handle_link(deep_link_enabled: bool, url: &str) -> (r: Option<String>)
    ensures
        match r {
            Some(script) => {
                &&& deep_link_enabled
                &&& whatsapp_web_url(url@) is Some
                &&& script@ == navigation_script(whatsapp_web_url(url@).unwrap())
            },
            None => !deep_link_enabled || whatsapp_web_url(url@) is None,
        },
{
    if !deep_link_enabled {
        return None;
    }
    match parse_whatsapp_link(url) {
        Some(web_url) => {
            let web = chars_of(web_url.as_str());
            let mut out = chars_of("window.location.assign(\"");
            append_chars(&mut out, &escape_quotes_exec(&web));
            append_chars(&mut out, &chars_of("\");"));
            Some(string_from_chars(&out))
        },
        None => None,
    }
}

// ---------------------------------------------------------------------------
// Laws
// ---------------------------------------------------------------------------

/// A leading run is no longer than the sequence.
pub proof fn lemma_leading_run_bound(s: Seq<char>, k: RunClass)
    ensures
        leading_run(s, k) <= s.len(),
    decreases s.len(),
{
    if s.len() > 0 && k.holds(s[0]) {
        lemma_leading_run_bound(s.drop_first(), k);
    }
}

/// A run that ends inside `a` is the same run in `a + b`.
pub proof fn lemma_leading_run_extend(a: Seq<char>, b: Seq<char>, k: RunClass)
    requires
        leading_run(a, k) < a.len(),
    ensures
        leading_run(a + b, k) == leading_run(a, k),
    decreases a.len(),
{
    assert((a + b)[0] == a[0]);
    if k.holds(a[0]) {
        assert((a + b).drop_first() =~= a.drop_first() + b);
        lemma_leading_run_extend(a.drop_first(), b, k);
    }
}

/// The host of a URL is decided by its beginning, up to the end of the authority.
pub proof fn lemma_host_of_extend(a: Seq<char>, b: Seq<char>)
    requires
        authority_of(a) is Some,
        leading_run(a.skip(leading_run(a, RunClass::Scheme) + 3int), RunClass::Authority)
            < a.skip(leading_run(a, RunClass::Scheme) + 3int).len(),
    ensures
        authority_of(a + b) == authority_of(a),
        host_of(a + b) == host_of(a),
{
    reveal_strlit("://");
    let n = leading_run(a, RunClass::Scheme) as int;
    lemma_leading_run_extend(a, b, RunClass::Scheme);
    assert((a + b)[0] == a[0]);
    assert((a + b).subrange(n, n + 3) =~= a.subrange(n, n + 3));
    let ra = a.skip(n + 3);
    assert((a + b).skip(n + 3) =~= ra + b);
    lemma_leading_run_extend(ra, b, RunClass::Authority);
    let m = leading_run(ra, RunClass::Authority) as int;
    assert((ra + b).take(m) =~= ra.take(m));
}

/// `web.whatsapp.com` as an authority names the host `web.whatsapp.com`.
proof fn lemma_web_authority_host()
    ensures
        host_in_authority("web.whatsapp.com"@) == "web.whatsapp.com"@,
{
    reveal_strlit("web.whatsapp.com");
    reveal_with_fuel(leading_run, 18);
    reveal_with_fuel(last_index_of, 18);
    let auth = "web.whatsapp.com"@;
    assert(last_index_of(auth, '@') is None);
    assert(leading_run(auth, RunClass::Host) == 16);
    assert(auth.take(16) =~= auth);
}

/// The authority of a WhatsApp Web prefix is `web.whatsapp.com`, and it ends
/// before the prefix does.
#[verifier::rlimit(40)]
proof fn lemma_web_prefix_authority(p: Seq<char>)
    requires
        p == "https://web.whatsapp.com/send?phone="@ || p == "https://web.whatsapp.com/accept?code="@,
    ensures
        authority_of(p) == Some("web.whatsapp.com"@),
        leading_run(p, RunClass::Scheme) == 5,
        leading_run(p.skip(8), RunClass::Authority) == 16,
        p.skip(8).len() > 16,
        p[0] == 'h',
{
    reveal_strlit("https://web.whatsapp.com/send?phone=");
    reveal_strlit("https://web.whatsapp.com/accept?code=");
    reveal_strlit("web.whatsapp.com");
    reveal_strlit("://");
    reveal_with_fuel(leading_run, 18);
    assert(leading_run(p, RunClass::Scheme) == 5);
    assert(p.subrange(5, 8) =~= "://"@);
    let rest = p.skip(8);
    assert(leading_run(rest, RunClass::Authority) == 16);
    assert(rest.take(16) =~= "web.whatsapp.com"@);
}

/// The two WhatsApp Web prefixes that links are turned into have the host
/// `web.whatsapp.com`, whatever follows them.
proof fn lemma_web_prefix_host(send: bool, v: Seq<char>)
    ensures
        url_host(
            (if send {
                "https://web.whatsapp.com/send?phone="@
            } else {
                "https://web.whatsapp.com/accept?code="@
            }) + v,
        ) == Some("web.whatsapp.com"@),
{
    let p = if send {
        "https://web.whatsapp.com/send?phone="@
    } else {
        "https://web.whatsapp.com/accept?code="@
    };
    lemma_web_prefix_authority(p);
    lemma_web_authority_host();
    lemma_host_of_extend(p, v);
    reveal_strlit("blob:");
    assert((p + v).subrange(0, 5)[0] != "blob:"@[0]);
    assert(!starts_with(p + v, "blob:"@));
}

/// Every WhatsApp Web address that a link is turned into is an internal
/// address: the window keeps it instead of handing it to the system browser.
pub proof fn lemma_web_url_is_internal(link: Seq<char>)
    ensures
        whatsapp_web_url(link) matches Some(u) ==> is_internal(u),
{
    if let Some(u) = whatsapp_web_url(link) {
        if starts_with(link, "whatsapp://send"@) {
            lemma_web_prefix_host(true, phone_value(segment_after(link, "phone="@).unwrap()));
        } else if starts_with(link, "whatsapp://chat"@) {
            lemma_web_prefix_host(false, code_value(segment_after(link, "code="@).unwrap()));
        } else {
            lemma_web_prefix_host(false, invite_code(invite_rest(link).unwrap()));
        }
    }
}

/// A link that has a web address is also a link argument for the running
/// instance: it starts with `whatsapp://` or holds `chat.whatsapp.com`.
pub proof fn lemma_web_link_is_link_arg(link: Seq<char>)
    ensures
        whatsapp_web_url(link) is Some ==> is_link_arg(link),
{
    reveal_strlit("whatsapp://send");
    reveal_strlit("whatsapp://chat");
    reveal_strlit("whatsapp://");
    reveal_strlit("https://chat.whatsapp.com/");
    reveal_strlit("http://chat.whatsapp.com/");
    reveal_strlit("chat.whatsapp.com");
    if whatsapp_web_url(link) is Some {
        if starts_with(link, "whatsapp://send"@) {
            assert(link.subrange(0, 11) =~= "whatsapp://send"@.subrange(0, 11));
            assert(link.subrange(0, 11) =~= "whatsapp://"@);
        } else if starts_with(link, "whatsapp://chat"@) {
            assert(link.subrange(0, 11) =~= "whatsapp://chat"@.subrange(0, 11));
            assert(link.subrange(0, 11) =~= "whatsapp://"@);
        } else if starts_with(link, "https://chat.whatsapp.com/"@) {
            assert(link.subrange(8, 25) =~= "https://chat.whatsapp.com/"@.subrange(8, 25));
            assert(link.subrange(8, 25) =~= "chat.whatsapp.com"@);
            assert(occurs_at(link, "chat.whatsapp.com"@, 8));
        } else {
            assert(link.subrange(7, 24) =~= "http://chat.whatsapp.com/"@.subrange(7, 24));
            assert(link.subrange(7, 24) =~= "chat.whatsapp.com"@);
            assert(occurs_at(link, "chat.whatsapp.com"@, 7));
        }
    }
}

/// A leading run stops at the end of `s` or at a character outside its class.
pub proof fn lemma_leading_run_stop(s: Seq<char>, k: RunClass)
    ensures
        leading_run(s, k) <= s.len(),
        leading_run(s, k) < s.len() ==> !k.holds(s[leading_run(s, k) as int]),
    decreases s.len(),
{
    if s.len() > 0 && k.holds(s[0]) {
        lemma_leading_run_stop(s.drop_first(), k);
        let n = leading_run(s.drop_first(), k) as int;
        if n < s.drop_first().len() {
            assert(s[n + 1] == s.drop_first()[n]);
        }
    }
}

/// Where the host of an address stands in it: at some `k`, right after the
/// `/` of `://` or the `@` that ends the user info, and right before the end
/// of the address or a `/`, `?`, `#` or `:`.
proof fn lemma_host_position(u: Seq<char>)
    requires
        host_of(u) is Some,
    ensures
        ({
            let h = host_of(u).unwrap();
            exists|k: int|
                {
                    &&& 1 <= k
                    &&& k + h.len() <= u.len()
                    &&& #[trigger] u.subrange(k, k + h.len()) == h
                    &&& (u[k - 1] == '/' || u[k - 1] == '@')
                    &&& (k + h.len() == u.len() || u[k + h.len()] == '/' || u[k + h.len()] == '?'
                        || u[k + h.len()] == '#' || u[k + h.len()] == ':')
                }
        }),
{
    reveal_strlit("://");
    let n = leading_run(u, RunClass::Scheme) as int;
    assert(u.subrange(n, n + 3) == "://"@);
    assert(u[n + 2] == u.subrange(n, n + 3)[2]);
    let rest = u.skip(n + 3);
    lemma_leading_run_stop(rest, RunClass::Authority);
    let m = leading_run(rest, RunClass::Authority) as int;
    let auth = rest.take(m);
    lemma_last_index_of_bounds(auth, '@');
    let (start, hpart) = match last_index_of(auth, '@') {
        Some(i) => (n + 3 + i + 1, auth.skip(i + 1)),
        None => (n + 3, auth),
    };
    assert(u[start - 1] == '/' || u[start - 1] == '@');
    lemma_leading_run_stop(hpart, RunClass::Host);
    let hl = leading_run(hpart, RunClass::Host) as int;
    let h = hpart.take(hl);
    assert(h == host_of(u).unwrap());
    assert(u.subrange(start, start + hl) =~= h);
    let end = start + hl;
    if hl < hpart.len() {
        assert(u[end] == hpart[hl]);
    } else if m < rest.len() {
        assert(end == n + 3 + m);
        assert(u[end] == rest[m]);
    }
}

/// An internal address is one whose host is exactly one of
/// `web.whatsapp.com`, `wa.me`, `api.whatsapp.com` and `chat.whatsapp.com`:
/// such a host stands in the address right after a `/` or `@` and right
/// before its end or a `/`, `?`, `#` or `:`. No other host (a subdomain such
/// as `www.whatsapp.com`, or one that merely contains a WhatsApp name) counts.
pub proof fn lemma_internal_has_whatsapp_host(u: Seq<char>)
    ensures
        is_internal(u) ==> exists|h: Seq<char>, k: int|
            {
                &&& (h == "web.whatsapp.com"@ || h == "wa.me"@ || h == "api.whatsapp.com"@ || h
                    == "chat.whatsapp.com"@)
                &&& 1 <= k
                &&& k + h.len() <= u.len()
                &&& #[trigger] u.subrange(k, k + h.len()) == h
                &&& (u[k - 1] == '/' || u[k - 1] == '@')
                &&& (k + h.len() == u.len() || u[k + h.len()] == '/' || u[k + h.len()] == '?' || u[k
                    + h.len()] == '#' || u[k + h.len()] == ':')
            },
{
    if is_internal(u) {
        let h = url_host(u).unwrap();
        if starts_with(u, "blob:"@) {
            reveal_strlit("blob:");
            let w = u.skip(5);
            lemma_host_position(w);
            let k = choose|k: int|
                {
                    &&& 1 <= k
                    &&& k + h.len() <= w.len()
                    &&& #[trigger] w.subrange(k, k + h.len()) == h
                    &&& (w[k - 1] == '/' || w[k - 1] == '@')
                    &&& (k + h.len() == w.len() || w[k + h.len()] == '/' || w[k + h.len()] == '?'
                        || w[k + h.len()] == '#' || w[k + h.len()] == ':')
                };
            assert(u.subrange(k + 5, k + 5 + h.len()) =~= w.subrange(k, k + h.len()));
            assert(u[k + 5 - 1] == w[k - 1]);
            if k + h.len() < w.len() {
                assert(u[k + 5 + h.len()] == w[k + h.len()]);
            }
        } else {
            lemma_host_position(u);
        }
    }
}

/// The piece after `key` stands in `link` right after an occurrence of `key`,
/// and ends at the end of `link` or at the next occurrence of `key`.
proof fn lemma_segment_in_link(link: Seq<char>, key: Seq<char>)
    requires
        segment_after(link, key) is Some,
    ensures
        ({
            let seg = segment_after(link, key).unwrap();
            exists|a: int|
                {
                    &&& key.len() <= a
                    &&& a + seg.len() <= link.len()
                    &&& #[trigger] link.subrange(a - key.len(), a) == key
                    &&& seg == link.subrange(a, a + seg.len())
                    &&& (a + seg.len() == link.len() || occurs_at(link, key, a + seg.len()))
                }
        }),
{
    lemma_find_from_contains(link, key, 0);
    let i = find_from(link, key, 0).unwrap();
    let a = i + key.len();
    let rest = link.skip(a);
    lemma_find_from_contains(rest, key, 0);
    let seg = segment_after(link, key).unwrap();
    assert(link.subrange(a - key.len(), a) == key);
    assert(seg =~= link.subrange(a, a + seg.len()));
    match find_from(rest, key, 0) {
        Some(j) => {
            assert(link.subrange(a + j, a + j + key.len()) =~= rest.subrange(j, j + key.len()));
        },
        None => {},
    }
}

/// Trimming `c` from a part `w[lo..hi]` keeps a smaller part and drops only `c`s.
proof fn lemma_trim_char_within(w: Seq<char>, lo: int, hi: int, c: char)
    requires
        0 <= lo <= hi <= w.len(),
    ensures
        exists|l2: int, h2: int|
            {
                &&& lo <= l2 <= h2 <= hi
                &&& #[trigger] trim_char(w.subrange(lo, hi), c) == w.subrange(l2, h2)
                &&& forall|j: int| (lo <= j < l2 || h2 <= j < hi) ==> w[j] == c
            },
{
    let t = w.subrange(lo, hi);
    lemma_trim_outside(t, TrimClass::Only(c));
    let (x, y) = choose|x: int, y: int|
        {
            &&& 0 <= x <= y <= t.len()
            &&& trim(t, TrimClass::Only(c)) == t.subrange(x, y)
            &&& forall|j: int| (0 <= j < x || y <= j < t.len()) ==> TrimClass::Only(c).holds(
                #[trigger] t[j],
            )
        };
    assert(t.subrange(x, y) =~= w.subrange(lo + x, lo + y));
    assert forall|j: int| (lo <= j < lo + x || lo + y <= j < hi) implies w[j] == c by {
        assert(w[j] == t[j - lo]);
    }
}

/// `link[lo..hi]` is the code of a link parameter `key`: the parameter's
/// value `link[a..b]` follows `key`, holds no `&`, and ends at the end of
/// `link`, at a `&` or at the next `key`; around `link[lo..hi]` it holds only
/// the characters `d1`, `d2` and `d3`.
pub open spec fn parameter_code_at(
    link: Seq<char>,
    key: Seq<char>,
    d1: char,
    d2: char,
    d3: char,
    a: int,
    lo: int,
    hi: int,
    b: int,
) -> bool {
    &&& key.len() <= a <= lo <= hi <= b <= link.len()
    &&& link.subrange(a - key.len(), a) == key
    &&& forall|j: int| a <= j < lo ==> (#[trigger] link[j] == d1 || link[j] == d2 || link[j] == d3)
    &&& forall|j: int| hi <= j < b ==> (#[trigger] link[j] == d1 || link[j] == d2 || link[j] == d3)
    &&& forall|j: int| a <= j < b ==> #[trigger] link[j] != '&'
    &&& (b == link.len() || link[b] == '&' || occurs_at(link, key, b))
}

/// A `whatsapp://chat` link opens the invitation of its whole code: the
/// address is the accept address followed by a piece of the link that starts
/// after `code=`, is cut only at the first `&`, the next `code=` or the end,
/// and at whose two ends only `/`, `"` and `'` characters are dropped,
/// whatever its length.
pub proof fn lemma_chat_code_carried_whole(link: Seq<char>)
    ensures
        starts_with(link, "whatsapp://chat"@) && whatsapp_web_url(link) is Some ==> exists|
            a: int,
            lo: int,
            hi: int,
            b: int,
        |
            #[trigger] parameter_code_at(
                link,
                "code="@,
                '/',
                '"',
                '\'',
                a,
                lo,
                hi,
                b,
            ) && whatsapp_web_url(link) == Some(
                "https://web.whatsapp.com/accept?code="@ + link.subrange(lo, hi),
            ),
{
    reveal_strlit("whatsapp://chat");
    reveal_strlit("whatsapp://send");
    reveal_strlit("code=");
    if starts_with(link, "whatsapp://chat"@) && whatsapp_web_url(link) is Some {
        assert(link.subrange(0, 15)[11] != "whatsapp://send"@[11]);
        assert(!starts_with(link, "whatsapp://send"@));
        let key = "code="@;
        let seg = segment_after(link, key).unwrap();
        lemma_segment_in_link(link, key);
        let a = choose|a: int|
            {
                &&& key.len() <= a
                &&& a + seg.len() <= link.len()
                &&& #[trigger] link.subrange(a - key.len(), a) == key
                &&& seg == link.subrange(a, a + seg.len())
                &&& (a + seg.len() == link.len() || occurs_at(link, key, a + seg.len()))
            };
        lemma_before_first_piece(seg, '&');
        let w = before_first(seg, '&');
        let kk = w.len() as int;
        let b = a + kk;
        // the code part of `link` is `link[a..b]`
        assert(w =~= link.subrange(a, b));
        lemma_trim_char_within(link, a, b, '/');
        let (l1, h1) = choose|l1: int, h1: int|
            {
                &&& a <= l1 <= h1 <= b
                &&& #[trigger] trim_char(link.subrange(a, b), '/') == link.subrange(l1, h1)
                &&& forall|j: int| (a <= j < l1 || h1 <= j < b) ==> link[j] == '/'
            };
        lemma_trim_char_within(link, l1, h1, '"');
        let (l2, h2) = choose|l2: int, h2: int|
            {
                &&& l1 <= l2 <= h2 <= h1
                &&& #[trigger] trim_char(link.subrange(l1, h1), '"') == link.subrange(l2, h2)
                &&& forall|j: int| (l1 <= j < l2 || h2 <= j < h1) ==> link[j] == '"'
            };
        lemma_trim_char_within(link, l2, h2, '\'');
        let (l3, h3) = choose|l3: int, h3: int|
            {
                &&& l2 <= l3 <= h3 <= h2
                &&& #[trigger] trim_char(link.subrange(l2, h2), '\'') == link.subrange(l3, h3)
                &&& forall|j: int| (l2 <= j < l3 || h3 <= j < h2) ==> link[j] == '\''
            };
        assert(code_value(seg) == link.subrange(l3, h3));
        assert forall|j: int| a <= j < b implies link[j] != '&' by {
            assert(link[j] == seg[j - a]);
        }
        assert forall|j: int| 0 <= j < b - h3 implies (link.subrange(h3, b)[j] == '/'
            || link.subrange(h3, b)[j] == '"' || link.subrange(h3, b)[j] == '\'') by {
            assert(link.subrange(h3, b)[j] == link[h3 + j]);
        }
        if kk < seg.len() {
            assert(link[b] == seg[kk]);
        } else if b < link.len() {
            assert(link.subrange(b, b + 5) == key);
        }
        assert(link.subrange(a - 5, a) == key);
        assert(parameter_code_at(
            link,
            "code="@,
            '/',
            '"',
            '\'',
            a,
            l3,
            h3,
            b,
        ));
    }
}

/// A `whatsapp://send` link opens the chat of its whole phone number: the
/// address is the send address followed by a piece of the link that starts
/// after `phone=`, is cut only at the first `&`, the next `phone=` or the end,
/// and at whose two ends only `"` and `'` characters are dropped, whatever
/// its length.
pub proof fn lemma_send_phone_carried_whole(link: Seq<char>)
    ensures
        starts_with(link, "whatsapp://send"@) && whatsapp_web_url(link) is Some ==> exists|
            a: int,
            lo: int,
            hi: int,
            b: int,
        |
            #[trigger] parameter_code_at(link, "phone="@, '"', '\'', '\'', a, lo, hi, b)
                && whatsapp_web_url(link) == Some(
                "https://web.whatsapp.com/send?phone="@ + link.subrange(lo, hi),
            ),
{
    reveal_strlit("phone=");
    if starts_with(link, "whatsapp://send"@) && whatsapp_web_url(link) is Some {
        let key = "phone="@;
        let seg = segment_after(link, key).unwrap();
        lemma_segment_in_link(link, key);
        let a = choose|a: int|
            {
                &&& key.len() <= a
                &&& a + seg.len() <= link.len()
                &&& #[trigger] link.subrange(a - key.len(), a) == key
                &&& seg == link.subrange(a, a + seg.len())
                &&& (a + seg.len() == link.len() || occurs_at(link, key, a + seg.len()))
            };
        lemma_before_first_piece(seg, '&');
        let w = before_first(seg, '&');
        let kk = w.len() as int;
        let b = a + kk;
        assert(w =~= link.subrange(a, b));
        lemma_trim_char_within(link, a, b, '"');
        let (l1, h1) = choose|l1: int, h1: int|
            {
                &&& a <= l1 <= h1 <= b
                &&& #[trigger] trim_char(link.subrange(a, b), '"') == link.subrange(l1, h1)
                &&& forall|j: int| (a <= j < l1 || h1 <= j < b) ==> link[j] == '"'
            };
        lemma_trim_char_within(link, l1, h1, '\'');
        let (l2, h2) = choose|l2: int, h2: int|
            {
                &&& l1 <= l2 <= h2 <= h1
                &&& #[trigger] trim_char(link.subrange(l1, h1), '\'') == link.subrange(l2, h2)
                &&& forall|j: int| (l1 <= j < l2 || h2 <= j < h1) ==> link[j] == '\''
            };
        assert(phone_value(seg) == link.subrange(l2, h2));
        assert forall|j: int| a <= j < b implies link[j] != '&' by {
            assert(link[j] == seg[j - a]);
        }
        if kk < seg.len() {
            assert(link[b] == seg[kk]);
        }
        assert(link.subrange(a - 6, a) == key);
        assert(parameter_code_at(link, "phone="@, '"', '\'', '\'', a, l2, h2, b));
    }
}

/// A `chat.whatsapp.com` invitation opens the invitation of its whole code:
/// the address is the accept address followed by a nonempty piece of the
/// link that starts right after `https://chat.whatsapp.com/` (or the `http`
/// form), is cut only at the first `?`, `#` or the end, and at whose two ends
/// only `/` characters are dropped, whatever its length.
pub proof fn lemma_invite_code_carried_whole(link: Seq<char>)
    ensures
        invite_rest(link) is Some && whatsapp_web_url(link) is Some ==> exists|
            a: int,
            lo: int,
            hi: int,
            b: int,
        |
            #![trigger link.subrange(0, a), link.subrange(lo, hi), link.subrange(hi, b)]
            {
                &&& (link.subrange(0, a) == "https://chat.whatsapp.com/"@ || link.subrange(0, a)
                    == "http://chat.whatsapp.com/"@)
                &&& 0 <= a <= lo < hi <= b <= link.len()
                &&& forall|j: int| a <= j < lo ==> #[trigger] link[j] == '/'
                &&& forall|j: int| hi <= j < b ==> #[trigger] link[j] == '/'
                &&& forall|j: int| a <= j < b ==> #[trigger] link[j] != '?' && link[j] != '#'
                &&& (b == link.len() || link[b] == '?' || link[b] == '#')
                &&& whatsapp_web_url(link) == Some(
                    "https://web.whatsapp.com/accept?code="@ + link.subrange(lo, hi),
                )
            },
{
    reveal_strlit("whatsapp://chat");
    reveal_strlit("whatsapp://send");
    reveal_strlit("https://chat.whatsapp.com/");
    reveal_strlit("http://chat.whatsapp.com/");
    if invite_rest(link) is Some && whatsapp_web_url(link) is Some {
        assert(link.subrange(0, 4)[0] != "whatsapp://send"@[0]);
        assert(!starts_with(link, "whatsapp://send"@));
        assert(!starts_with(link, "whatsapp://chat"@));
        let a: int = if starts_with(link, "https://chat.whatsapp.com/"@) {
            26
        } else {
            25
        };
        let rest = invite_rest(link).unwrap();
        assert(rest =~= link.skip(a));
        assert(link.subrange(0, a) == "https://chat.whatsapp.com/"@ || link.subrange(0, a)
            == "http://chat.whatsapp.com/"@);
        lemma_before_first_piece(rest, '?');
        let w1 = before_first(rest, '?');
        lemma_before_first_piece(w1, '#');
        let w = before_first(w1, '#');
        let b = a + w.len();
        assert(w =~= link.subrange(a, b));
        assert forall|j: int| a <= j < b implies link[j] != '?' && link[j] != '#' by {
            assert(link[j] == w[j - a]);
            assert(w[j - a] == w1[j - a]);
        }
        if w.len() < w1.len() {
            assert(link[b] == w1[w.len() as int]);
        } else if w1.len() < rest.len() {
            assert(link[b] == rest[w1.len() as int]);
        }
        lemma_trim_char_within(link, a, b, '/');
        let (l1, h1) = choose|l1: int, h1: int|
            {
                &&& a <= l1 <= h1 <= b
                &&& #[trigger] trim_char(link.subrange(a, b), '/') == link.subrange(l1, h1)
                &&& forall|j: int| (a <= j < l1 || h1 <= j < b) ==> link[j] == '/'
            };
        assert(invite_code(rest) == link.subrange(l1, h1));
        assert(l1 < h1);
        assert(link.subrange(l1, h1) == link.subrange(l1, h1));
        assert(link.subrange(h1, b) == link.subrange(h1, b));
    }
}

/// A command-line argument is taken as a link exactly when its first eleven
/// characters are `whatsapp://` or `chat.whatsapp.com` stands somewhere in it,
/// whether or not it has a web address.
pub proof fn lemma_link_arg_exact(arg: Seq<char>)
    ensures
        is_link_arg(arg) <==> ((arg.len() >= 11 && arg.take(11) == "whatsapp://"@) || exists|
            i: int,
        | 0 <= i && i + 17 <= arg.len() && #[trigger] arg.subrange(i, i + 17)
            == "chat.whatsapp.com"@),
{
    reveal_strlit("whatsapp://");
    reveal_strlit("chat.whatsapp.com");
    if arg.len() >= 11 && arg.take(11) == "whatsapp://"@ {
        assert(arg.subrange(0, 11) =~= arg.take(11));
    }
    if starts_with(arg, "whatsapp://"@) {
        assert(arg.subrange(0, 11) =~= arg.take(11));
    }
    if exists|i: int|
        0 <= i && i + 17 <= arg.len() && #[trigger] arg.subrange(i, i + 17) == "chat.whatsapp.com"@ {
        let i = choose|i: int|
            0 <= i && i + 17 <= arg.len() && #[trigger] arg.subrange(i, i + 17)
                == "chat.whatsapp.com"@;
        assert(occurs_at(arg, "chat.whatsapp.com"@, i));
    }
}

/// `e` with the backslash before each escaped double quote removed: the
/// string that a double-quoted script literal holding `e` stands for.
pub open spec fn unescape_quotes(e: Seq<char>) -> Seq<char>
    decreases e.len(),
{
    if e.len() == 0 {
        e
    } else if e.len() >= 2 && e.last() == '"' && e[e.len() - 2] == '\\' {
        unescape_quotes(e.take(e.len() - 2)).push('"')
    } else {
        unescape_quotes(e.drop_last()).push(e.last())
    }
}

proof fn lemma_unescape_escape(w: Seq<char>)
    ensures
        unescape_quotes(escape_quotes(w)) == w,
    decreases w.len(),
{
    if w.len() > 0 {
        lemma_unescape_escape(w.drop_last());
        let e = escape_quotes(w);
        let e0 = escape_quotes(w.drop_last());
        if w.last() == '"' {
            assert(e.take(e.len() - 2) =~= e0);
        } else {
            assert(e.drop_last() =~= e0);
        }
        assert(w.drop_last().push(w.last()) =~= w);
    }
}

/// The navigation script carries the whole address: it is
/// `window.location.assign("` then a string literal that stands for exactly
/// `web_url`, then `");`.
pub proof fn lemma_navigation_script_carries_address(web_url: Seq<char>)
    ensures
        exists|e: Seq<char>|
            navigation_script(web_url) == "window.location.assign(\""@ + e + "\");"@
                && unescape_quotes(e) == web_url,
{
    lemma_unescape_escape(web_url);
    let e = escape_quotes(web_url);
    assert(navigation_script(web_url) == "window.location.assign(\""@ + e + "\");"@);
}

} // verus!
