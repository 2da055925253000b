use vstd::prelude::*;
use crate::strings::{
    is_whitespace, is_ascii_digit, is_ascii_alpha, is_ascii_alnum, is_ascii_hex, first_index,
    last_index, contains_char, contains_whitespace, char_is_whitespace, char_is_ascii_digit,
    char_is_ascii_alpha, char_is_ascii_alnum, char_is_ascii_hex, find_char, rfind_char, has_char,
    has_whitespace, slice_chars, chars,
};
use crate::pointer::{digits_value, all_digits};

verus! {

// ---------------------------------------------------------------------------
// Email
// ---------------------------------------------------------------------------

/// Whether a run of characters is acceptable as one part of an email address:
/// non-empty, without `@` and without whitespace.
pub open spec fn email_part_ok(p: Seq<char>) -> bool {
    p.len() > 0 && !contains_char(p, '@') && !contains_whitespace(p)
}

/// An email address: a non-empty run, `@`, a non-empty run, `.`, a non-empty run, where
/// the `@` is the first one and the `.` the last one after it, and no run holds `@` or
/// whitespace.
pub open spec fn spec_is_valid_email(s: Seq<char>) -> bool {
    match first_index(s, '@') {
        None => false,
        Some(at) => {
            let local = s.take(at);
            let rest = s.skip(at + 1);
            email_part_ok(local) && match last_index(rest, '.') {
                None => false,
                Some(dot) => email_part_ok(rest.take(dot)) && email_part_ok(rest.skip(dot + 1)),
            }
        },
    }
}

fn email_part_ok_exec(p: &Vec<char>) -> (r: bool)
    ensures
        r == email_part_ok(p@),
{
    p.len() > 0 && !has_char(p, '@') && !has_whitespace(p)
}

/// Whether `s` is an email address in the sense of [`spec_is_valid_email`].
pub fn is_valid_email(s: &str) -> (r: bool)
    ensures
        r == spec_is_valid_email(s@),
{
    let cs = chars(s);
    proof {
        crate::strings::lemma_first_index(cs@, '@');
    }
    let at = match find_char(&cs, '@') {
        Some(i) => i,
        None => return false,
    };
    let n = cs.len();
    assert(at < n);
    let local = slice_chars(&cs, 0, at);
    let rest = slice_chars(&cs, at + 1, n);
    assert(local@ =~= s@.take(at as int));
    assert(rest@ =~= s@.skip(at + 1));
    if !email_part_ok_exec(&local) {
        return false;
    }
    let dot = match rfind_char(&rest, '.') {
        Some(i) => i,
        None => return false,
    };
    proof {
        crate::strings::lemma_last_index(rest@, '.');
    }
    let domain = slice_chars(&rest, 0, dot);
    let tld = slice_chars(&rest, dot + 1, rest.len());
    assert(domain@ =~= rest@.take(dot as int));
    assert(tld@ =~= rest@.skip(dot + 1));
    email_part_ok_exec(&domain) && email_part_ok_exec(&tld)
}

// ---------------------------------------------------------------------------
// UUID
// ---------------------------------------------------------------------------

/// 36 characters: `-` at positions 8, 13, 18 and 23, ASCII hex digits elsewhere.
pub open spec fn spec_is_valid_uuid(s: Seq<char>) -> bool {
    s.len() == 36 && forall|i: int|
        0 <= i < 36 ==> if i == 8 || i == 13 || i == 18 || i == 23 {
            #[trigger] s[i] == '-'
        } else {
            is_ascii_hex(s[i])
        }
}

/// Whether `s` is a UUID in the 8-4-4-4-12 hex layout.
pub fn is_valid_uuid(s: &str) -> (r: bool)
    ensures
        r == spec_is_valid_uuid(s@),
{
    let cs = chars(s);
    if cs.len() != 36 {
        return false;
    }
    let mut i: usize = 0;
    while i < 36
        invariant
            i <= 36,
            cs@ == s@,
            cs@.len() == 36,
            forall|j: int|
                0 <= j < i ==> if j == 8 || j == 13 || j == 18 || j == 23 {
                    #[trigger] cs@[j] == '-'
                } else {
                    is_ascii_hex(cs@[j])
                },
        decreases 36 - i,
    {
        if i == 8 || i == 13 || i == 18 || i == 23 {
            if cs[i] != '-' {
                return false;
            }
        } else if !char_is_ascii_hex(cs[i]) {
            return false;
        }
        i += 1;
    }
    true
}

// ---------------------------------------------------------------------------
// URI
// ---------------------------------------------------------------------------

pub open spec fn scheme_char(c: char) -> bool {
    is_ascii_alnum(c) || c == '+' || c == '-' || c == '.'
}

/// `scheme ":" rest`: the scheme is the text before the first `:`, it starts with an ASCII
/// letter and continues with ASCII letters, digits, `+`, `-` or `.`; the rest is non-empty.
pub open spec fn spec_is_valid_uri(s: Seq<char>) -> bool {
    match first_index(s, ':') {
        None => false,
        Some(colon) => {
            let scheme = s.take(colon);
            &&& scheme.len() > 0
            &&& s.len() > colon + 1
            &&& is_ascii_alpha(scheme[0])
            &&& forall|i: int| 1 <= i < scheme.len() ==> scheme_char(#[trigger] scheme[i])
        },
    }
}

/// Whether `s` has a URI's `scheme:path` structure.
pub fn is_valid_uri(s: &str) -> (r: bool)
    ensures
        r == spec_is_valid_uri(s@),
{
    let cs = chars(s);
    proof {
        crate::strings::lemma_first_index(cs@, ':');
    }
    let colon = match find_char(&cs, ':') {
        Some(i) => i,
        None => return false,
    };
    if colon == 0 || colon + 1 >= cs.len() {
        return false;
    }
    assert(s@.take(colon as int)[0] == cs@[0]);
    if !char_is_ascii_alpha(cs[0]) {
        return false;
    }
    let mut i: usize = 1;
    while i < colon
        invariant
            1 <= i <= colon,
            colon < cs@.len(),
            cs@ == s@,
            first_index(s@, ':') == Some(colon as int),
            forall|j: int| 1 <= j < i ==> scheme_char(#[trigger] s@.take(colon as int)[j]),
        decreases colon - i,
    {
        let c = cs[i];
        if !(char_is_ascii_alnum(c) || c == '+' || c == '-' || c == '.') {
            assert(s@.take(colon as int)[i as int] == c);
            assert(!scheme_char(s@.take(colon as int)[i as int]));
            assert(s@.take(colon as int).len() == colon);
            return false;
        }
        i += 1;
    }
    true
}


// ---------------------------------------------------------------------------
// Regular expressions (regex crate)
// ---------------------------------------------------------------------------

/// Whether `regex::Regex::new` accepts `pattern`. Its size limit (10 MB of compiled
/// program) is measured in a way that depends on the target's pointer width, so a pattern
/// near that limit may compile on one target and not on another; within one build the
/// answer is a function of the pattern.
pub uninterp spec fn regex_compiles(pattern: Seq<char>) -> bool;

/// The `Display` text of the error `regex::Regex::new` returns for `pattern`.
pub uninterp spec fn regex_error_text(pattern: Seq<char>) -> Seq<char>;

/// What `Regex::is_match` answers for the regex compiled from `pattern` on `haystack`.
pub uninterp spec fn regex_is_match(pattern: Seq<char>, haystack: Seq<char>) -> bool;

/// Compiles `pattern` with `regex::Regex::new` and, when it compiles, asks
/// `Regex::is_match` about `haystack`; an error yields the error's text. The contract
/// claims that compilation and matching depend on the pattern and haystack alone.
#[verifier::external_body]
pub(crate) fn regex_match(pattern: &str, haystack: &str) -> (r: Result<bool, String>)
    ensures
        match r {
            Ok(b) => regex_compiles(pattern@) && b == regex_is_match(pattern@, haystack@),
            Err(e) => !regex_compiles(pattern@) && e@ == regex_error_text(pattern@),
        },
{
    match regex::Regex::new(pattern) {
        Ok(re) => Ok(re.is_match(haystack)),
        Err(e) => Err(e.to_string()),
    }
}

// ---------------------------------------------------------------------------
// URL
// ---------------------------------------------------------------------------

/// The shape an HTTP(S) URL must have before its host and port are examined.
pub open spec fn url_pattern() -> Seq<char> {
    "(?i)^https?://(?:[-\\w.])+(?::[0-9]+)?(?:/(?:[\\w/_.-])*)?(?:\\?(?:[\\w&=%.~!$'()*+,;:@/-])*)?(?:#(?:[\\w.~!$'()*+,;:@/-])*)?$"@
}

/// Index of the first `://` in `s`.
pub open spec fn first_scheme_sep(s: Seq<char>) -> Option<int>
    decreases s.len(),
{
    if s.len() < 3 {
        None
    } else if s[0] == ':' && s[1] == '/' && s[2] == '/' {
        Some(0)
    } else {
        match first_scheme_sep(s.drop_first()) {
            Some(i) => Some(i + 1),
            None => None,
        }
    }
}

/// Characters that end the host-and-port part of a URL.
pub open spec fn host_end_char(c: char) -> bool {
    c == '/' || c == '?' || c == '#' || is_whitespace(c)
}

/// Index of the first host-ending character, or the length when there is none.
pub open spec fn host_end(s: Seq<char>) -> int
    decreases s.len(),
{
    if s.len() == 0 {
        0
    } else if host_end_char(s[0]) {
        0
    } else {
        host_end(s.drop_first()) + 1
    }
}

pub open spec fn has_double_dot(s: Seq<char>) -> bool {
    exists|i: int| 0 <= i < s.len() - 1 && #[trigger] s[i] == '.' && s[i + 1] == '.'
}

/// Host and optional port of `host:port`: the port is the text after the last `:` when it
/// is a non-empty run of ASCII digits.
pub open spec fn split_port(hp: Seq<char>) -> (Seq<char>, Option<Seq<char>>) {
    match last_index(hp, ':') {
        Some(c) => {
            let cand = hp.skip(c + 1);
            if cand.len() > 0 && all_digits(cand) {
                (hp.take(c), Some(cand))
            } else {
                (hp, None)
            }
        },
        None => (hp, None),
    }
}

/// The host/port rules a URL must satisfy once its shape matched [`url_pattern`].
pub open spec fn url_host_ok(s: Seq<char>) -> bool {
    match first_scheme_sep(s) {
        None => false,
        Some(i) => {
            let after = s.skip(i + 3);
            let hp = after.take(host_end(after));
            let (host, port) = split_port(hp);
            &&& hp.len() > 0
            &&& host.len() > 0
            &&& !has_double_dot(host)
            &&& host[0] != '.'
            &&& host.last() != '.'
            &&& (contains_char(host, '.') || host == "localhost"@)
            &&& match port {
                Some(p) => 1 <= digits_value(p) <= 65535,
                None => true,
            }
        },
    }
}

/// An HTTP(S) URL: it matches [`url_pattern`] and its host and port pass [`url_host_ok`].
pub open spec fn spec_is_valid_url(s: Seq<char>) -> bool {
    regex_compiles(url_pattern()) && regex_is_match(url_pattern(), s) && url_host_ok(s)
}

fn find_scheme_sep(s: &Vec<char>) -> (r: Option<usize>)
    ensures
        match r {
            Some(i) => first_scheme_sep(s@) == Some(i as int) && i + 3 <= s@.len(),
            None => first_scheme_sep(s@) is None,
        },
{
    let mut i: usize = s.len();
    let mut found: Option<usize> = None;
    // Scan from the back; `found` is the first separator at or after `i`.
    while i > 0
        invariant
            i <= s@.len(),
            match found {
                Some(k) => first_scheme_sep(s@.skip(i as int)) == Some(k - i) && i <= k && k + 3 <= s@.len(),
                None => first_scheme_sep(s@.skip(i as int)) is None,
            },
        decreases i,
    {
        i -= 1;
        assert(s@.skip(i as int).drop_first() =~= s@.skip(i + 1));
        if s.len() >= 3 && i <= s.len() - 3 && s[i] == ':' && s[i + 1] == '/' && s[i + 2] == '/' {
            found = Some(i);
        }
    }
    assert(s@.skip(0) =~= s@);
    found
}

fn host_end_exec(s: &Vec<char>) -> (r: usize)
    ensures
        r == host_end(s@),
        r <= s@.len(),
{
    let mut i: usize = s.len();
    let mut end: usize = s.len();
    while i > 0
        invariant
            i <= end <= s@.len(),
            host_end(s@.skip(i as int)) == end - i,
        decreases i,
    {
        i -= 1;
        assert(s@.skip(i as int).drop_first() =~= s@.skip(i + 1));
        let c = s[i];
        if c == '/' || c == '?' || c == '#' || char_is_whitespace(c) {
            end = i;
        }
    }
    assert(s@.skip(0) =~= s@);
    end
}

fn all_digits_exec(s: &Vec<char>) -> (r: bool)
    ensures
        r == all_digits(s@),
{
    let mut i: usize = 0;
    while i < s.len()
        invariant
            i <= s@.len(),
            forall|j: int| 0 <= j < i ==> is_ascii_digit(#[trigger] s@[j]),
        decreases s.len() - i,
    {
        if !char_is_ascii_digit(s[i]) {
            return false;
        }
        i += 1;
    }
    true
}

/// Whether the digits of `p` denote a port in `1..=65535`.
fn port_ok(p: &Vec<char>) -> (r: bool)
    requires
        all_digits(p@),
    ensures
        r == (1 <= digits_value(p@) <= 65535),
{
    let mut v: u32 = 0;
    let mut k: usize = 0;
    while k < p.len()
        invariant
            k <= p@.len(),
            all_digits(p@),
            v == digits_value(p@.take(k as int)),
            v <= 65535,
        decreases p.len() - k,
    {
        assert(p@.take(k + 1).drop_last() =~= p@.take(k as int));
        assert(is_ascii_digit(p@[k as int]));
        let d = (p[k] as u32) - 48;
        let next = v * 10 + d;
        if next > 65535 {
            proof {
                lemma_digit_prefix_bound(p@, (k + 1) as int);
            }
            return false;
        }
        v = next;
        k += 1;
    }
    assert(p@.take(p@.len() as int) =~= p@);
    v >= 1
}

proof fn lemma_digit_prefix_bound(s: Seq<char>, k: int)
    requires
        0 <= k <= s.len(),
        all_digits(s),
    ensures
        digits_value(s) >= digits_value(s.take(k)),
    decreases s.len() - k,
{
    if k < s.len() {
        lemma_digit_prefix_bound(s, k + 1);
        assert(s.take(k + 1).drop_last() =~= s.take(k));
        assert(is_ascii_digit(s[k]));
    } else {
        assert(s.take(k) =~= s);
    }
}

fn has_double_dot_exec(s: &Vec<char>) -> (r: bool)
    ensures
        r == has_double_dot(s@),
{
    let mut i: usize = 0;
    while i < s.len() && i + 1 < s.len()
        invariant
            forall|j: int| 0 <= j < i && j < s@.len() - 1 ==> !(#[trigger] s@[j] == '.' && s@[j + 1] == '.'),
        decreases s.len() - i,
    {
        if s[i] == '.' && s[i + 1] == '.' {
            return true;
        }
        i += 1;
    }
    false
}

fn chars_eq(a: &Vec<char>, b: &Vec<char>) -> (r: bool)
    ensures
        r == (a@ == b@),
{
    if a.len() != b.len() {
        return false;
    }
    let mut i: usize = 0;
    while i < a.len()
        invariant
            i <= a@.len(),
            a@.len() == b@.len(),
            forall|j: int| 0 <= j < i ==> a@[j] == b@[j],
        decreases a.len() - i,
    {
        if a[i] != b[i] {
            return false;
        }
        i += 1;
    }
    assert(a@ =~= b@);
    true
}

/// Whether `s` is an HTTP(S) URL in the sense of [`spec_is_valid_url`].
pub fn is_valid_url(s: &str) -> (r: bool)
    ensures
        r == spec_is_valid_url(s@),
{
    let pattern = "(?i)^https?://(?:[-\\w.])+(?::[0-9]+)?(?:/(?:[\\w/_.-])*)?(?:\\?(?:[\\w&=%.~!$'()*+,;:@/-])*)?(?:#(?:[\\w.~!$'()*+,;:@/-])*)?$";
    match regex_match(pattern, s) {
        Ok(true) => {},
        _ => return false,
    }
    let cs = chars(s);
    let i = match find_scheme_sep(&cs) {
        Some(i) => i,
        None => return false,
    };
    let n = cs.len();
    let after = slice_chars(&cs, i + 3, n);
    assert(after@ =~= s@.skip(i + 3));
    let end = host_end_exec(&after);
    let hp = slice_chars(&after, 0, end);
    assert(hp@ =~= after@.take(end as int));
    if hp.len() == 0 {
        return false;
    }
    proof {
        crate::strings::lemma_last_index(hp@, ':');
    }
    let (host, port) = match rfind_char(&hp, ':') {
        Some(c) => {
            let cand = slice_chars(&hp, c + 1, hp.len());
            assert(cand@ =~= hp@.skip(c + 1));
            if cand.len() > 0 && all_digits_exec(&cand) {
                let h = slice_chars(&hp, 0, c);
                assert(h@ =~= hp@.take(c as int));
                (h, Some(cand))
            } else {
                (hp, None)
            }
        },
        None => (hp, None),
    };
    if host.len() == 0 {
        return false;
    }
    if has_double_dot_exec(&host) || host[0] == '.' || host[host.len() - 1] == '.' {
        return false;
    }
    let localhost = chars("localhost");
    if !has_char(&host, '.') && !chars_eq(&host, &localhost) {
        return false;
    }
    match port {
        Some(p) => port_ok(&p),
        None => true,
    }
}


// ---------------------------------------------------------------------------
// Laws
// ---------------------------------------------------------------------------

/// A run of an address: non-empty, without `@` and without whitespace.
pub open spec fn address_run(p: Seq<char>) -> bool {
    &&& p.len() > 0
    &&& forall|i: int| 0 <= i < p.len() ==> p[i] != '@' && !is_whitespace(#[trigger] p[i])
}

/// Every address `local@domain.tld` whose three runs are non-empty and hold neither `@`
/// nor whitespace, and whose top-level part holds no `.`, is an email address: in
/// particular dots in the local part and in the domain are allowed.
pub proof fn law_email_accepts_runs(local: Seq<char>, domain: Seq<char>, tld: Seq<char>)
    requires
        address_run(local),
        address_run(domain),
        address_run(tld),
        forall|i: int| 0 <= i < tld.len() ==> tld[i] != '.',
    ensures
        spec_is_valid_email(local + seq!['@'] + domain + seq!['.'] + tld),
{
    let s = local + seq!['@'] + domain + seq!['.'] + tld;
    let at = local.len() as int;
    crate::strings::lemma_first_index(s, '@');
    assert(s[at] == '@');
    assert forall|j: int| 0 <= j < at implies s[j] != '@' by {
        assert(s[j] == local[j]);
    }
    assert(first_index(s, '@') == Some(at));
    let rest = s.skip(at + 1);
    assert(s.take(at) =~= local);
    assert(rest =~= domain + seq!['.'] + tld);
    let dot = domain.len() as int;
    crate::strings::lemma_last_index(rest, '.');
    assert(rest[dot] == '.');
    assert forall|j: int| dot < j < rest.len() implies rest[j] != '.' by {
        assert(rest[j] == tld[j - dot - 1]);
    }
    assert(last_index(rest, '.') == Some(dot));
    assert(rest.take(dot) =~= domain);
    assert(rest.skip(dot + 1) =~= tld);
    assert(!contains_char(local, '@'));
    assert(!contains_whitespace(local));
    assert(!contains_char(domain, '@'));
    assert(!contains_whitespace(domain));
    assert(!contains_char(tld, '@'));
    assert(!contains_whitespace(tld));
}

/// Conversely, every email address is such an address: its first `@` and the last `.`
/// after it cut it into three runs as above.
pub proof fn law_email_is_runs(s: Seq<char>)
    requires
        spec_is_valid_email(s),
    ensures
        exists|local: Seq<char>, domain: Seq<char>, tld: Seq<char>|
            address_run(local) && address_run(domain) && address_run(tld)
            && (forall|i: int| 0 <= i < tld.len() ==> tld[i] != '.')
            && s == #[trigger] (local + seq!['@'] + domain + seq!['.'] + tld),
{
    crate::strings::lemma_first_index(s, '@');
    let at = first_index(s, '@')->0;
    let local = s.take(at);
    let rest = s.skip(at + 1);
    crate::strings::lemma_last_index(rest, '.');
    let dot = last_index(rest, '.')->0;
    let domain = rest.take(dot);
    let tld = rest.skip(dot + 1);
    assert forall|i: int| 0 <= i < local.len() implies local[i] != '@' && !is_whitespace(#[trigger] local[i]) by {
        if local[i] == '@' { assert(contains_char(local, '@')); }
        if is_whitespace(local[i]) { assert(contains_whitespace(local)); }
    }
    assert forall|i: int| 0 <= i < domain.len() implies domain[i] != '@' && !is_whitespace(#[trigger] domain[i]) by {
        if domain[i] == '@' { assert(contains_char(domain, '@')); }
        if is_whitespace(domain[i]) { assert(contains_whitespace(domain)); }
    }
    assert forall|i: int| 0 <= i < tld.len() implies tld[i] != '@' && !is_whitespace(#[trigger] tld[i]) by {
        if tld[i] == '@' { assert(contains_char(tld, '@')); }
        if is_whitespace(tld[i]) { assert(contains_whitespace(tld)); }
    }
    assert forall|i: int| 0 <= i < tld.len() implies tld[i] != '.' by {
        assert(tld[i] == rest[dot + 1 + i]);
    }
    assert(s =~= local + seq!['@'] + domain + seq!['.'] + tld);
}

} // verus!
