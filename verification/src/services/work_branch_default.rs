//! The default work branch name (`prio/<slug>`) for setup and suggestions.
use vstd::prelude::*;
use vstd::string::{StrSliceExecFns, StringExecFns, StringSliceAdditionalSpecFns};
use crate::json::{first_listed_text, json_first_listed_text};
use crate::strings::{before_first, concat2, splitn2, trim, trim_spec};

verus! {

/// A byte that a URL query keeps as it is: ASCII letters and digits, `-`, `_`, `.`, `~`.
pub open spec fn unreserved(b: u8) -> bool {
    (65 <= b <= 90) || (97 <= b <= 122) || (48 <= b <= 57) || b == 45 || b == 95 || b == 46 || b == 126
}

/// The upper-case hexadecimal digit for `n < 16`.
pub open spec fn hex_digit(n: u8) -> char {
    if n < 10 {
        (48 + n) as char
    } else {
        (55 + n) as char
    }
}

/// The percent-encoding of one byte.
pub open spec fn encoded_byte(b: u8) -> Seq<char> {
    if unreserved(b) {
        seq![b as char]
    } else {
        seq!['%', hex_digit(b / 16), hex_digit(b % 16)]
    }
}

/// The percent-encoding of a byte string.
pub open spec fn percent_encoded(bs: Seq<u8>) -> Seq<char>
    decreases bs.len(),
{
    if bs.len() == 0 {
        Seq::empty()
    } else {
        percent_encoded(bs.drop_last()) + encoded_byte(bs.last())
    }
}

fn hex(n: u8) -> (c: char)
    requires
        n < 16,
    ensures
        c == hex_digit(n),
{
    if n < 10 {
        (48 + n) as char
    } else {
        (55 + n) as char
    }
}

/// Encodes text for a URL query: each UTF-8 byte other than an unreserved one becomes
/// `%XX` in upper-case hexadecimal.
pub fn percent_encode_query(s: &str) -> (r: String)
    ensures
        r@ == percent_encoded(s.spec_bytes()),
{
    let bytes = s.as_bytes();
    let mut r = String::new();
    let mut i: usize = 0;
    while i < bytes.len()
        invariant
            i <= bytes@.len(),
            bytes@ == s.spec_bytes(),
            r@ == percent_encoded(bytes@.take(i as int)),
        decreases bytes.len() - i,
    {
        let b = bytes[i];
        proof {
            assert(bytes@.take(i + 1).drop_last() =~= bytes@.take(i as int));
        }
        if (65 <= b && b <= 90) || (97 <= b && b <= 122) || (48 <= b && b <= 57) || b == 45 || b == 95 || b == 46 || b == 126 {
            r.push(b as char);
            assert(r@ =~= percent_encoded(bytes@.take(i + 1)));
        } else {
            r.push('%');
            r.push(hex(b / 16));
            r.push(hex(b % 16));
            assert(r@ =~= percent_encoded(bytes@.take(i + 1)));
        }
        i = i + 1;
    }
    assert(bytes@.take(bytes@.len() as int) =~= bytes@);
    r
}

/// The local part of an e-mail address: the text before the first `@`, trimmed;
/// none when that is empty.
pub open spec fn email_local_spec(email: Seq<char>) -> Option<Seq<char>> {
    let l = trim_spec(before_first(email, '@'));
    if l.len() == 0 {
        None
    } else {
        Some(l)
    }
}

pub fn email_local_part(email: &str) -> (r: Option<String>)
    ensures
        match r {
            None => email_local_spec(email@) is None,
            Some(l) => email_local_spec(email@) == Some(l@),
        },
{
    let (first, _) = splitn2(email, '@');
    let local = trim(first.as_str());
    if local.as_str().unicode_len() == 0 {
        None
    } else {
        Some(local)
    }
}

/// The URL of GitHub's user search for an e-mail address.
pub fn search_url(email: &str) -> (r: String)
    ensures
        r@ == "https://api.github.com/search/users?q="@ + percent_encoded(email.spec_bytes()),
{
    let q = percent_encode_query(email);
    concat2("https://api.github.com/search/users?q=", q.as_str())
}

/// The GitHub login found by a user search, from the JSON body of the answer: the
/// `login` of the first of its `items`.
pub fn login_from_search(json: &str) -> (r: Option<String>)
    ensures
        match r {
            None => json_first_listed_text(json@, "items"@, "login"@) is None,
            Some(l) => json_first_listed_text(json@, "items"@, "login"@) == Some(l@),
        },
{
    first_listed_text(json, "items", "login")
}

/// The work branch name when it is known without asking: the one given, else the
/// one in the user's configuration, else `prio/` and the GitHub login of the gh
/// user, else `prio/` and the login found by e-mail.
pub open spec fn known_name(override_name: Option<Seq<char>>, prefix: Option<Seq<char>>, gh_login: Option<Seq<char>>, api_login: Option<Seq<char>>) -> Option<Seq<char>> {
    if override_name is Some {
        override_name
    } else if prefix is Some {
        prefix
    } else if gh_login is Some {
        Some("prio/"@ + gh_login.unwrap())
    } else if api_login is Some {
        Some("prio/"@ + api_login.unwrap())
    } else {
        None
    }
}

pub open spec fn opt_view(o: Option<String>) -> Option<Seq<char>> {
    match o {
        None => None,
        Some(s) => Some(s@),
    }
}

pub fn resolve_known(override_name: Option<String>, prefix: Option<String>, gh_login: Option<String>, api_login: Option<String>) -> (r: Option<String>)
    ensures
        opt_view(r) == known_name(opt_view(override_name), opt_view(prefix), opt_view(gh_login), opt_view(api_login)),
{
    if let Some(name) = override_name {
        return Some(name);
    }
    if let Some(p) = prefix {
        return Some(p);
    }
    if let Some(login) = gh_login {
        return Some(concat2("prio/", login.as_str()));
    }
    if let Some(login) = api_login {
        return Some(concat2("prio/", login.as_str()));
    }
    None
}

/// The work branch name when nothing else gave one: `prio/` and the local part of
/// the e-mail address, else `prio/` and the operating-system user name.
pub fn fallback_name(email: &str, os_user: &str) -> (r: String)
    ensures
        r@ == "prio/"@ + match email_local_spec(email@) {
            Some(l) => l,
            None => os_user@,
        },
{
    match email_local_part(email) {
        Some(local) => concat2("prio/", local.as_str()),
        None => concat2("prio/", os_user),
    }
}

/// Resolve the default work branch name (`prio/<slug>`) when nothing is asked of
/// the user: the known name, else the fallback.
pub fn resolve(
    override_name: Option<String>,
    prefix: Option<String>,
    gh_login: Option<String>,
    api_login: Option<String>,
    email: &str,
    os_user: &str,
) -> (r: String)
    ensures
        known_name(opt_view(override_name), opt_view(prefix), opt_view(gh_login), opt_view(api_login)) matches Some(n)
            ==> r@ == n,
        known_name(opt_view(override_name), opt_view(prefix), opt_view(gh_login), opt_view(api_login)) is None ==> r@
            == "prio/"@ + match email_local_spec(email@) {
            Some(l) => l,
            None => os_user@,
        },
{
    match resolve_known(override_name, prefix, gh_login, api_login) {
        Some(n) => n,
        None => fallback_name(email, os_user),
    }
}

/// Whether an answer to a yes/no question is yes: `y` or `yes` in any case, after
/// trimming.
pub open spec fn is_yes_spec(input: Seq<char>) -> bool {
    let t = trim_spec(input);
    (t.len() == 1 && (t[0] == 'y' || t[0] == 'Y')) || (t.len() == 3 && (t[0] == 'y' || t[0] == 'Y') && (t[1] == 'e'
        || t[1] == 'E') && (t[2] == 's' || t[2] == 'S'))
}

pub fn is_yes(input: &str) -> (r: bool)
    ensures
        r == is_yes_spec(input@),
{
    let t = trim(input);
    let n = t.as_str().unicode_len();
    if n == 1 {
        let c = t.as_str().get_char(0);
        c == 'y' || c == 'Y'
    } else if n == 3 {
        let a = t.as_str().get_char(0);
        let b = t.as_str().get_char(1);
        let c = t.as_str().get_char(2);
        (a == 'y' || a == 'Y') && (b == 'e' || b == 'E') && (c == 's' || c == 'S')
    } else {
        false
    }
}

} // verus!
