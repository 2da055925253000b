use vstd::prelude::*;
use crate::error::{ZerxError, ErrorCode, ErrorView, error_view, ev_new, ev_at, strings_view};
use crate::text::{chars_of, concat, string_from_chars};

verus! {

/// What `{:?}` (std `Debug` for `str`) renders for a string: the text in double quotes,
/// with escapes.
pub uninterp spec fn debug_text(s: Seq<char>) -> Seq<char>;

/// The `Debug` rendering of a string slice (std `<str as Debug>::fmt` through `format!`).
#[verifier::external_body]
pub(crate) fn debug_quoted(s: &str) -> (r: String)
    ensures
        r@ == debug_text(s@),
{
    format!("{:?}", s)
}

/// Splits `s` at every occurrence of `c` (as `str::split` with a `char` does): the pieces
/// in order, an empty piece where `c` starts or ends `s` or two `c` are adjacent.
pub open spec fn split_char(s: Seq<char>, c: char) -> Seq<Seq<char>>
    decreases s.len(),
{
    if s.len() == 0 {
        seq![Seq::<char>::empty()]
    } else {
        let rest = split_char(s.drop_first(), c);
        if s[0] == c {
            seq![Seq::<char>::empty()] + rest
        } else {
            rest.update(0, seq![s[0]] + rest[0])
        }
    }
}

/// `s` with every non-overlapping occurrence (left to right) of the two-character
/// pattern `a b` replaced by `r`, as `str::replace` does.
pub open spec fn replace_pair(s: Seq<char>, a: char, b: char, r: char) -> Seq<char>
    decreases s.len(),
{
    if s.len() < 2 {
        s
    } else if s[0] == a && s[1] == b {
        seq![r] + replace_pair(s.skip(2), a, b, r)
    } else {
        seq![s[0]] + replace_pair(s.drop_first(), a, b, r)
    }
}

/// RFC 6901 unescaping of one reference token: `~1` becomes `/`, then `~0` becomes `~`.
pub open spec fn unescape_token(s: Seq<char>) -> Seq<char> {
    replace_pair(replace_pair(s, '~', '1', '/'), '~', '0', '~')
}

/// The reference tokens of a JSON Pointer, or `None` when the pointer is neither empty
/// nor starts with `/`.
pub open spec fn pointer_tokens(p: Seq<char>) -> Option<Seq<Seq<char>>> {
    if p.len() == 0 {
        Some(Seq::empty())
    } else if p[0] != '/' {
        None
    } else {
        Some(split_char(p.drop_first(), '/').map_values(|t: Seq<char>| unescape_token(t)))
    }
}

proof fn lemma_split_nonempty(s: Seq<char>, c: char)
    ensures
        split_char(s, c).len() >= 1,
    decreases s.len(),
{
    if s.len() > 0 {
        lemma_split_nonempty(s.drop_first(), c);
    }
}

/// The pieces of `s` between occurrences of `c`, computed from the back.
fn split_chars(s: &Vec<char>, c: char) -> (r: Vec<Vec<char>>)
    ensures
        r@.len() == split_char(s@, c).len(),
        forall|i: int| 0 <= i < r@.len() ==> (#[trigger] r@[i])@ == split_char(s@, c)[i],
{
    // Walk from the end so that each step matches one unfolding of `split_char`.
    let mut pieces: Vec<Vec<char>> = Vec::new();
    let mut cur: Vec<char> = Vec::new();
    let mut i: usize = s.len();
    // `pieces` holds the later pieces in reverse order, `cur` the current piece.
    while i > 0
        invariant
            i <= s@.len(),
            ({
                let sp = split_char(s@.skip(i as int), c);
                &&& sp.len() == pieces@.len() + 1
                &&& sp[0] == cur@
                &&& forall|j: int| 0 <= j < pieces@.len() ==> (#[trigger] pieces@[j])@ == sp[sp.len() - 1 - j]
            }),
        decreases i,
    {
        let ghost old_pieces = pieces@;
        let ghost old_cur = cur@;
        i -= 1;
        let ch = s[i];
        proof {
            assert(s@.skip(i as int).drop_first() =~= s@.skip(i + 1));
            lemma_split_nonempty(s@.skip(i + 1), c);
        }
        if ch == c {
            let done = cur;
            pieces.push(done);
            cur = Vec::new();
            proof {
                let sp = split_char(s@.skip(i as int), c);
                let rest = split_char(s@.skip(i + 1), c);
                assert(sp == seq![Seq::<char>::empty()] + rest);
                assert forall|j: int| 0 <= j < pieces@.len() implies (#[trigger] pieces@[j])@ == sp[sp.len() - 1 - j] by {
                    if j < old_pieces.len() {
                        assert(pieces@[j] == old_pieces[j]);
                    }
                }
            }
        } else {
            cur.insert(0, ch);
            proof {
                let sp = split_char(s@.skip(i as int), c);
                let rest = split_char(s@.skip(i + 1), c);
                assert(sp == rest.update(0, seq![ch] + rest[0]));
                assert(cur@ =~= seq![ch] + old_cur);
            }
        }
    }
    assert(s@.skip(0) =~= s@);
    pieces.push(cur);
    // reverse into order
    let mut r: Vec<Vec<char>> = Vec::new();
    let n = pieces.len();
    let ghost sp = split_char(s@, c);
    let mut k: usize = n;
    while k > 0
        invariant
            k <= n,
            n == pieces@.len(),
            sp.len() == n,
            r@.len() == n - k,
            forall|j: int| 0 <= j < n ==> (#[trigger] pieces@[j])@ == sp[sp.len() - 1 - j],
            forall|j: int| 0 <= j < r@.len() ==> (#[trigger] r@[j])@ == sp[j],
        decreases k,
    {
        k -= 1;
        let piece = pieces[k].clone();
        r.push(piece);
    }
    r
}

/// Replaces each non-overlapping `a b` (left to right) with `rep`.
fn replace_pair_exec(s: &Vec<char>, a: char, b: char, rep: char) -> (r: Vec<char>)
    ensures
        r@ == replace_pair(s@, a, b, rep),
{
    let mut out: Vec<char> = Vec::new();
    let mut i: usize = 0;
    assert(s@.skip(0) =~= s@);
    assert(out@ + replace_pair(s@, a, b, rep) =~= replace_pair(s@, a, b, rep));
    while i < s.len()
        invariant
            i <= s@.len(),
            out@ + replace_pair(s@.skip(i as int), a, b, rep) == replace_pair(s@, a, b, rep),
        decreases s.len() - i,
    {
        let ghost t = s@.skip(i as int);
        if i + 1 < s.len() && s[i] == a && s[i + 1] == b {
            let ghost prev = out@;
            out.push(rep);
            proof {
                assert(t.skip(2) =~= s@.skip(i + 2));
                assert(prev + replace_pair(t, a, b, rep) =~= out@ + replace_pair(s@.skip(i + 2), a, b, rep));
            }
            i += 2;
        } else {
            let ghost prev = out@;
            out.push(s[i]);
            proof {
                assert(t.drop_first() =~= s@.skip(i + 1));
                assert(t[0] == s@[i as int]);
                assert(prev + replace_pair(t, a, b, rep) =~= out@ + replace_pair(s@.skip(i + 1), a, b, rep));
            }
            i += 1;
        }
    }
    assert(s@.skip(i as int) =~= Seq::<char>::empty());
    assert(out@ + Seq::<char>::empty() =~= out@);
    out
}

/// Splits a JSON Pointer (RFC 6901) into its unescaped reference tokens.
pub fn parse_pointer(path: &str) -> (r: Result<Vec<String>, ZerxError>)
    ensures
        match r {
            Ok(v) => pointer_tokens(path@) == Some(strings_view(v@)),
            Err(e) => pointer_tokens(path@) is None && error_view(e) == ev_new(
                "invalid_pointer"@,
                "JSON Pointer must be empty or start with '/'; got "@ + debug_text(path@),
            ),
        },
{
    let chars = chars_of(path);
    if chars.len() == 0 {
        let v: Vec<String> = Vec::new();
        assert(strings_view(v@) =~= Seq::<Seq<char>>::empty());
        return Ok(v);
    }
    if chars[0] != '/' {
        let got = debug_quoted(path);
        let msg = concat("JSON Pointer must be empty or start with '/'; got ", got.as_str());
        return Err(ZerxError::new(ErrorCode::INVALID_POINTER(), msg));
    }
    let mut rest: Vec<char> = Vec::new();
    let mut i: usize = 1;
    while i < chars.len()
        invariant
            1 <= i <= chars@.len(),
            rest@ == chars@.subrange(1, i as int),
        decreases chars.len() - i,
    {
        rest.push(chars[i]);
        i += 1;
    }
    assert(rest@ =~= path@.drop_first());
    let pieces = split_chars(&rest, '/');
    let ghost sp = split_char(rest@, '/');
    let mut out: Vec<String> = Vec::new();
    let mut k: usize = 0;
    while k < pieces.len()
        invariant
            k <= pieces@.len(),
            pieces@.len() == sp.len(),
            forall|j: int| 0 <= j < pieces@.len() ==> (#[trigger] pieces@[j])@ == sp[j],
            out@.len() == k,
            forall|j: int| 0 <= j < k ==> (#[trigger] out@[j])@ == unescape_token(sp[j]),
        decreases pieces.len() - k,
    {
        let a = replace_pair_exec(&pieces[k], '~', '1', '/');
        let b = replace_pair_exec(&a, '~', '0', '~');
        out.push(string_from_chars(&b));
        k += 1;
    }
    assert(strings_view(out@) =~= sp.map_values(|t: Seq<char>| unescape_token(t)));
    Ok(out)
}

/// The value of a run of ASCII digits, most significant first.
pub open spec fn digits_value(s: Seq<char>) -> nat
    decreases s.len(),
{
    if s.len() == 0 {
        0
    } else {
        digits_value(s.drop_last()) * 10 + ((s.last() as int - 48) as nat)
    }
}

pub open spec fn is_ascii_digit(c: char) -> bool {
    '0' <= c && c <= '9'
}

pub open spec fn all_digits(s: Seq<char>) -> bool {
    forall|i: int| 0 <= i < s.len() ==> is_ascii_digit(#[trigger] s[i])
}

/// The array/tuple index a reference token denotes, or why it denotes none.
pub open spec fn index_result(seg: Seq<char>, consumed: Seq<Seq<char>>) -> Result<nat, ErrorView> {
    if seg.len() == 0 || !all_digits(seg) {
        Err(ev_at(ev_new(
            "invalid_pointer"@,
            "array/tuple index must be a non-negative decimal integer; got "@ + debug_text(seg),
        ), consumed))
    } else if digits_value(seg) > usize::MAX {
        Err(ev_at(ev_new(
            "invalid_pointer"@,
            "array/tuple index is out of representable range: "@ + debug_text(seg),
        ), consumed))
    } else {
        Ok(digits_value(seg))
    }
}

/// Parses an array/tuple index: a non-empty run of ASCII digits that fits in `usize`.
pub fn parse_index(seg: &str, consumed: &Vec<String>) -> (r: Result<usize, ZerxError>)
    ensures
        match (r, index_result(seg@, strings_view(consumed@))) {
            (Ok(n), Ok(m)) => n == m,
            (Err(e), Err(ev)) => error_view(e) == ev,
            _ => false,
        },
{
    let chars = chars_of(seg);
    let mut ok = chars.len() > 0;
    let mut i: usize = 0;
    while i < chars.len()
        invariant
            i <= chars@.len(),
            ok == (chars@.len() > 0 && forall|j: int| 0 <= j < i ==> is_ascii_digit(#[trigger] chars@[j])),
        decreases chars.len() - i,
    {
        if !('0' <= chars[i] && chars[i] <= '9') {
            ok = false;
        }
        i += 1;
    }
    if !ok {
        let got = debug_quoted(seg);
        let msg = concat("array/tuple index must be a non-negative decimal integer; got ", got.as_str());
        return Err(ZerxError::new(ErrorCode::INVALID_POINTER(), msg).at(consumed.clone()));
    }
    let mut value: usize = 0;
    let mut k: usize = 0;
    while k < chars.len()
        invariant
            k <= chars@.len(),
            all_digits(chars@),
            chars@ == seg@,
            value == digits_value(chars@.take(k as int)),
        decreases chars.len() - k,
    {
        let d = (chars[k] as u32 - 48) as usize;
        proof {
            assert(chars@.take(k + 1).drop_last() =~= chars@.take(k as int));
        }
        let next = match value.checked_mul(10) {
            Some(m) => m.checked_add(d),
            None => None,
        };
        match next {
            Some(n) => {
                value = n;
            },
            None => {
                proof {
                    lemma_prefix_value_bound(chars@, (k + 1) as int);
                }
                let got = debug_quoted(seg);
                let msg = concat("array/tuple index is out of representable range: ", got.as_str());
                return Err(ZerxError::new(ErrorCode::INVALID_POINTER(), msg).at(consumed.clone()));
            },
        }
        k += 1;
    }
    assert(chars@.take(chars@.len() as int) =~= chars@);
    Ok(value)
}

/// A longer digit prefix never has a smaller value.
proof fn lemma_prefix_value_bound(s: Seq<char>, k: int)
    requires
        0 <= k <= s.len(),
        all_digits(s),
    ensures
        digits_value(s) >= digits_value(s.take(k)),
    decreases s.len() - k,
{
    if k < s.len() {
        lemma_prefix_value_bound(s, k + 1);
        assert(s.take(k + 1).drop_last() =~= s.take(k));
        assert(is_ascii_digit(s[k]));
    } else {
        assert(s.take(k) =~= s);
    }
}

// ---------------------------------------------------------------------------
// Writing a pointer and reading it back
// ---------------------------------------------------------------------------

/// RFC 6901 escaping of one reference token: `~` becomes `~0` and `/` becomes `~1`
/// (what replacing `~` by `~0`, then `/` by `~1`, gives).
pub open spec fn escape_token(s: Seq<char>) -> Seq<char>
    decreases s.len(),
{
    if s.len() == 0 {
        s
    } else {
        let head = if s[0] == '~' {
            seq!['~', '0']
        } else if s[0] == '/' {
            seq!['~', '1']
        } else {
            seq![s[0]]
        };
        head + escape_token(s.drop_first())
    }
}

/// The JSON Pointer naming the tokens `segs`: `/` and the escaped token, for each.
pub open spec fn pointer_of(segs: Seq<Seq<char>>) -> Seq<char>
    decreases segs.len(),
{
    if segs.len() == 0 {
        Seq::empty()
    } else {
        seq!['/'] + escape_token(segs[0]) + pointer_of(segs.drop_first())
    }
}

/// `s` with only `~` escaped, as `~0`.
spec fn escape_tilde(s: Seq<char>) -> Seq<char>
    decreases s.len(),
{
    if s.len() == 0 {
        s
    } else {
        let head = if s[0] == '~' { seq!['~', '0'] } else { seq![s[0]] };
        head + escape_tilde(s.drop_first())
    }
}

proof fn lemma_replace_other(x: char, t: Seq<char>, a: char, b: char, r: char)
    requires
        x != a,
    ensures
        replace_pair(seq![x] + t, a, b, r) == seq![x] + replace_pair(t, a, b, r),
{
    let s = seq![x] + t;
    assert(s.drop_first() =~= t);
    if s.len() < 2 {
        assert(t.len() < 2);
    }
}

proof fn lemma_replace_hit(t: Seq<char>, a: char, b: char, r: char)
    ensures
        replace_pair(seq![a, b] + t, a, b, r) == seq![r] + replace_pair(t, a, b, r),
{
    let s = seq![a, b] + t;
    assert(s.skip(2) =~= t);
}

proof fn lemma_replace_miss(y: char, t: Seq<char>, a: char, b: char, r: char)
    requires
        y != b,
        y != a,
    ensures
        replace_pair(seq![a, y] + t, a, b, r) == seq![a, y] + replace_pair(t, a, b, r),
{
    let s = seq![a, y] + t;
    assert(s.drop_first() =~= seq![y] + t);
    lemma_replace_other(y, t, a, b, r);
    assert(seq![a] + (seq![y] + replace_pair(t, a, b, r)) =~= seq![a, y] + replace_pair(t, a, b, r));
}

proof fn lemma_unescape_slashes(s: Seq<char>)
    ensures
        replace_pair(escape_token(s), '~', '1', '/') == escape_tilde(s),
    decreases s.len(),
{
    if s.len() > 0 {
        lemma_unescape_slashes(s.drop_first());
        let rest = escape_token(s.drop_first());
        if s[0] == '~' {
            lemma_replace_miss('0', rest, '~', '1', '/');
        } else if s[0] == '/' {
            lemma_replace_hit(rest, '~', '1', '/');
        } else {
            lemma_replace_other(s[0], rest, '~', '1', '/');
        }
    }
}

proof fn lemma_unescape_tildes(s: Seq<char>)
    ensures
        replace_pair(escape_tilde(s), '~', '0', '~') == s,
    decreases s.len(),
{
    if s.len() > 0 {
        lemma_unescape_tildes(s.drop_first());
        let rest = escape_tilde(s.drop_first());
        if s[0] == '~' {
            lemma_replace_hit(rest, '~', '0', '~');
        } else {
            lemma_replace_other(s[0], rest, '~', '0', '~');
        }
        assert(seq![s[0]] + s.drop_first() =~= s);
    }
}

proof fn lemma_escape_no_slash(s: Seq<char>)
    ensures
        !escape_token(s).contains('/'),
    decreases s.len(),
{
    if s.len() > 0 {
        lemma_escape_no_slash(s.drop_first());
        let e = escape_token(s);
        let rest = escape_token(s.drop_first());
        assert forall|i: int| 0 <= i < e.len() implies e[i] != '/' by {
            let hl: int = if s[0] == '~' || s[0] == '/' { 2 } else { 1 };
            if i >= hl {
                assert(e[i] == rest[i - hl]);
            }
        }
    }
}

proof fn lemma_split_plain(a: Seq<char>, b: Seq<char>, c: char)
    requires
        !a.contains(c),
    ensures
        split_char(a + b, c) == split_char(b, c).update(0, a + split_char(b, c)[0]),
    decreases a.len(),
{
    lemma_split_nonempty(b, c);
    if a.len() == 0 {
        assert(a + b =~= b);
        assert(a + split_char(b, c)[0] =~= split_char(b, c)[0]);
        assert(split_char(b, c).update(0, split_char(b, c)[0]) =~= split_char(b, c));
    } else {
        let t = a.drop_first();
        assert(!t.contains(c)) by {
            assert forall|i: int| 0 <= i < t.len() implies t[i] != c by {
                assert(t[i] == a[i + 1]);
            }
        }
        lemma_split_plain(t, b, c);
        assert((a + b).drop_first() =~= t + b);
        assert(a[0] != c);
        assert((a + b)[0] == a[0]);
        let rest = split_char(t + b, c);
        assert(seq![a[0]] + (t + split_char(b, c)[0]) =~= a + split_char(b, c)[0]);
        assert(rest.update(0, seq![a[0]] + rest[0]) =~= split_char(b, c).update(0, a + split_char(b, c)[0]));
    }
}

proof fn lemma_split_tokens(segs: Seq<Seq<char>>)
    requires
        segs.len() >= 1,
    ensures
        split_char(escape_token(segs[0]) + pointer_of(segs.drop_first()), '/') == segs.map_values(|t: Seq<char>| escape_token(t)),
    decreases segs.len(),
{
    let e0 = escape_token(segs[0]);
    lemma_escape_no_slash(segs[0]);
    let tail = segs.drop_first();
    if segs.len() == 1 {
        assert(pointer_of(tail) =~= Seq::<char>::empty());
        lemma_split_plain(e0, Seq::empty(), '/');
        assert(e0 + Seq::<char>::empty() =~= e0);
        assert(split_char(e0, '/') =~= seq![e0]);
        assert(segs.map_values(|t: Seq<char>| escape_token(t)) =~= seq![e0]);
    } else {
        lemma_split_tokens(tail);
        let body = escape_token(tail[0]) + pointer_of(tail.drop_first());
        assert(pointer_of(tail) =~= seq!['/'] + body);
        lemma_split_plain(e0, seq!['/'] + body, '/');
        assert((seq!['/'] + body).drop_first() =~= body);
        let sb = split_char(body, '/');
        lemma_split_nonempty(body, '/');
        assert(split_char(seq!['/'] + body, '/') == seq![Seq::<char>::empty()] + sb);
        assert(e0 + Seq::<char>::empty() =~= e0);
        assert((seq![Seq::<char>::empty()] + sb).update(0, e0 + Seq::<char>::empty()) =~= seq![e0] + sb);
        assert(e0 + (seq!['/'] + body) =~= e0 + pointer_of(tail));
        assert(segs.map_values(|t: Seq<char>| escape_token(t)) =~= seq![e0] + tail.map_values(|t: Seq<char>| escape_token(t)));
    }
}

/// Writing tokens as a JSON Pointer and reading the pointer back gives the tokens, empty
/// ones included.
pub proof fn law_pointer_round_trip(segs: Seq<Seq<char>>)
    requires
        segs.len() >= 1,
    ensures
        pointer_tokens(pointer_of(segs)) == Some(segs),
{
    let p = pointer_of(segs);
    let body = escape_token(segs[0]) + pointer_of(segs.drop_first());
    assert(p =~= seq!['/'] + body);
    assert(p.drop_first() =~= body);
    lemma_split_tokens(segs);
    let esc = segs.map_values(|t: Seq<char>| escape_token(t));
    assert forall|i: int| 0 <= i < segs.len() implies unescape_token(esc[i]) == segs[i] by {
        lemma_unescape_slashes(segs[i]);
        lemma_unescape_tildes(segs[i]);
    }
    assert(esc.map_values(|t: Seq<char>| unescape_token(t)) =~= segs);
}

} // verus!
