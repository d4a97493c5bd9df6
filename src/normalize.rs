//! Canonical form of the URLs that get stored: scheme stripped, host
//! lower-cased and checked, a leading `www.` dropped, path and query kept.
use vstd::prelude::*;

verus! {

pub open spec fn http_prefix() -> Seq<char> {
    seq!['h', 't', 't', 'p', ':', '/', '/']
}

pub open spec fn https_prefix() -> Seq<char> {
    seq!['h', 't', 't', 'p', 's', ':', '/', '/']
}

pub open spec fn localhost() -> Seq<char> {
    seq!['l', 'o', 'c', 'a', 'l', 'h', 'o', 's', 't']
}

pub open spec fn local_suffix() -> Seq<char> {
    seq!['.', 'l', 'o', 'c', 'a', 'l']
}

pub open spec fn www_prefix() -> Seq<char> {
    seq!['w', 'w', 'w', '.']
}

pub open spec fn has_prefix(s: Seq<char>, p: Seq<char>) -> bool {
    p.len() <= s.len() && s.take(p.len() as int) == p
}

pub open spec fn has_suffix(s: Seq<char>, p: Seq<char>) -> bool {
    p.len() <= s.len() && s.skip(s.len() - p.len()) == p
}

/// What follows `http://` or `https://`; none for any other scheme.
pub open spec fn strip_scheme(s: Seq<char>) -> Option<Seq<char>> {
    if has_prefix(s, http_prefix()) {
        Some(s.skip(7))
    } else if has_prefix(s, https_prefix()) {
        Some(s.skip(8))
    } else {
        None
    }
}

/// The index of the first `c` in `s` at or after `i`, or `s.len()` if none.
pub open spec fn find_from(s: Seq<char>, c: char, i: int) -> int
    decreases s.len() - i,
{
    if i < 0 || i >= s.len() {
        s.len() as int
    } else if s[i] == c {
        i
    } else {
        find_from(s, c, i + 1)
    }
}

pub open spec fn ascii_lower(c: char) -> char {
    if 'A' <= c && c <= 'Z' {
        (c as int + 32) as char
    } else {
        c
    }
}

pub open spec fn lower(s: Seq<char>) -> Seq<char> {
    Seq::new(s.len(), |i: int| ascii_lower(s[i]))
}

/// A host that names the local machine or network.
pub open spec fn is_local_host(h: Seq<char>) -> bool {
    h == localhost() || has_suffix(h, local_suffix())
}

/// Split on `.`, the host has at least two labels and its last label has at
/// least two characters.
pub open spec fn has_valid_labels(h: Seq<char>) -> bool {
    &&& exists|i: int| 0 <= i < h.len() && h[i] == '.'
    &&& h.len() >= 2
    &&& h[h.len() - 1] != '.'
    &&& h[h.len() - 2] != '.'
}

pub open spec fn strip_www(h: Seq<char>) -> Seq<char> {
    if has_prefix(h, www_prefix()) {
        h.skip(4)
    } else {
        h
    }
}

/// The canonical form of `raw`, or none when it is refused.
pub open spec fn normalize_spec(raw: Seq<char>) -> Option<Seq<char>> {
    match strip_scheme(raw) {
        None => None,
        Some(rest) => {
            let host_port = rest.take(find_from(rest, '/', 0));
            let path_query = rest.skip(find_from(rest, '/', 0));
            let host = lower(host_port.take(find_from(host_port, ':', 0)));
            if is_local_host(host) || !has_valid_labels(host) {
                None
            } else {
                Some(strip_www(host) + path_query)
            }
        },
    }
}

/// Relies on `String::push`: appends one character.
#[verifier::external_body]
fn push_char(s: &mut String, c: char)
    ensures
        final(s)@ == old(s)@.push(c),
{
    s.push(c)
}

pub(crate) fn to_chars(s: &str) -> (r: Vec<char>)
    ensures
        r@ == s@,
{
    broadcast use vstd::string::group_string_axioms;

    let mut r: Vec<char> = Vec::new();
    for c in it: s.chars()
        invariant
            it.seq() == s@,
            r@ == it.seq().take(it.index() as int),
    {
        r.push(c);
        assert(r@ =~= it.seq().take(it.index() + 1));
    }
    assert(r@ =~= s@);
    r
}

fn starts_with(v: &Vec<char>, p: &Vec<char>) -> (r: bool)
    ensures
        r == has_prefix(v@, p@),
{
    if p.len() > v.len() {
        return false;
    }
    let mut i: usize = 0;
    while i < p.len()
        invariant
            p@.len() <= v@.len(),
            i <= p@.len(),
            v@.take(i as int) == p@.take(i as int),
        decreases p.len() - i,
    {
        if v[i] != p[i] {
            assert(v@.take(p@.len() as int)[i as int] != p@[i as int]);
            return false;
        }
        i = i + 1;
        assert(v@.take(i as int) =~= p@.take(i as int));
    }
    assert(p@.take(p@.len() as int) =~= p@);
    true
}

fn ends_with(v: &Vec<char>, p: &Vec<char>) -> (r: bool)
    ensures
        r == has_suffix(v@, p@),
{
    if p.len() > v.len() {
        return false;
    }
    let off = v.len() - p.len();
    let mut i: usize = 0;
    while i < p.len()
        invariant
            off + p@.len() == v@.len(),
            i <= p@.len(),
            forall|j: int| 0 <= j < i ==> v@[off + j] == p@[j],
        decreases p.len() - i,
    {
        assert(off + i < v.len());
        if v[off + i] != p[i] {
            assert(v@.skip(off as int)[i as int] != p@[i as int]);
            return false;
        }
        i = i + 1;
    }
    assert(v@.skip(off as int) =~= p@);
    true
}

/// The index of the first `c` in `v[from..to]`, or `to` when there is none.
fn find_char(v: &Vec<char>, c: char, from: usize, to: usize) -> (r: usize)
    requires
        from <= to <= v@.len(),
    ensures
        r == from + find_from(v@.subrange(from as int, to as int), c, 0),
        from <= r <= to,
{
    let ghost s = v@.subrange(from as int, to as int);
    let mut i: usize = from;
    while i < to
        invariant
            from <= i <= to <= v@.len(),
            s == v@.subrange(from as int, to as int),
            find_from(s, c, 0) == find_from(s, c, i - from),
        decreases to - i,
    {
        if v[i] == c {
            return i;
        }
        i = i + 1;
    }
    i
}

fn lower_char(c: char) -> (r: char)
    ensures
        r == ascii_lower(c),
{
    if 'A' <= c && c <= 'Z' {
        ((c as u32) + 32) as u8 as char
    } else {
        c
    }
}

fn lower_range(v: &Vec<char>, from: usize, to: usize) -> (r: Vec<char>)
    requires
        from <= to <= v@.len(),
    ensures
        r@ == lower(v@.subrange(from as int, to as int)),
{
    let mut r: Vec<char> = Vec::new();
    let mut i: usize = from;
    while i < to
        invariant
            from <= i <= to <= v@.len(),
            r@ == lower(v@.subrange(from as int, i as int)),
        decreases to - i,
    {
        r.push(lower_char(v[i]));
        i = i + 1;
        assert(r@ =~= lower(v@.subrange(from as int, i as int)));
    }
    r
}

fn append_range(out: &mut String, v: &Vec<char>, from: usize, to: usize)
    requires
        from <= to <= v@.len(),
    ensures
        final(out)@ == old(out)@ + v@.subrange(from as int, to as int),
{
    let mut i: usize = from;
    while i < to
        invariant
            from <= i <= to <= v@.len(),
            out@ == old(out)@ + v@.subrange(from as int, i as int),
        decreases to - i,
    {
        push_char(out, v[i]);
        i = i + 1;
        assert(out@ =~= old(out)@ + v@.subrange(from as int, i as int));
    }
}

/// Whether a lower-cased host may be stored.
fn host_allowed(host: &Vec<char>) -> (r: bool)
    ensures
        r == (!is_local_host(host@) && has_valid_labels(host@)),
{
    let lh = vec!['l', 'o', 'c', 'a', 'l', 'h', 'o', 's', 't'];
    let ls = vec!['.', 'l', 'o', 'c', 'a', 'l'];
    assert(lh@ =~= localhost());
    assert(ls@ =~= local_suffix());
    let is_lh = host.len() == lh.len() && starts_with(host, &lh);
    assert(is_lh == (host@ == localhost())) by {
        if host.len() == lh.len() {
            assert(host@.take(lh@.len() as int) =~= host@);
        }
    }
    if is_lh || ends_with(host, &ls) {
        return false;
    }
    let n = host.len();
    let dot = find_char(host, '.', 0, n);
    assert(host@.subrange(0, n as int) =~= host@);
    proof {
        lemma_find_from_hit(host@, '.', 0);
    }
    !(dot == n || n < 2 || host[n - 1] == '.' || host[n - 2] == '.')
}

/// Normalizes `raw`, or answers none when the URL is refused.
pub fn normalize(raw: &str) -> (r: Option<String>)
    ensures
        r is Some <==> normalize_spec(raw@) is Some,
        r is Some ==> r->0@ == normalize_spec(raw@)->0,
{
    let v = to_chars(raw);
    let http = vec!['h', 't', 't', 'p', ':', '/', '/'];
    let https = vec!['h', 't', 't', 'p', 's', ':', '/', '/'];
    assert(http@ =~= http_prefix());
    assert(https@ =~= https_prefix());
    let start: usize = if starts_with(&v, &http) {
        7
    } else if starts_with(&v, &https) {
        8
    } else {
        return None;
    };
    let ghost rest = v@.skip(start as int);
    assert(strip_scheme(raw@) == Some(rest));
    let slash = find_char(&v, '/', start, v.len());
    assert(v@.subrange(start as int, v@.len() as int) =~= rest);
    let ghost host_port = rest.take(find_from(rest, '/', 0));
    let colon = find_char(&v, ':', start, slash);
    assert(v@.subrange(start as int, slash as int) =~= host_port);
    let host = lower_range(&v, start, colon);
    assert(host_port.take(find_from(host_port, ':', 0)) =~= v@.subrange(
        start as int,
        colon as int,
    ));
    if !host_allowed(&host) {
        return None;
    }
    let www = vec!['w', 'w', 'w', '.'];
    assert(www@ =~= www_prefix());
    let skip: usize = if starts_with(&host, &www) {
        4
    } else {
        0
    };
    let mut out = String::new();
    append_range(&mut out, &host, skip, host.len());
    assert(out@ =~= strip_www(host@));
    append_range(&mut out, &v, slash, v.len());
    assert(v@.subrange(slash as int, v@.len() as int) =~= rest.skip(find_from(rest, '/', 0)));
    Some(out)
}

/// `find_from` stops at an occurrence of `c` exactly when there is one.
proof fn lemma_find_from_hit(s: Seq<char>, c: char, i: int)
    requires
        0 <= i <= s.len(),
    ensures
        find_from(s, c, i) < s.len() <==> exists|j: int| i <= j < s.len() && s[j] == c,
        find_from(s, c, i) < s.len() ==> s[find_from(s, c, i)] == c,
    decreases s.len() - i,
{
    if i < s.len() && s[i] != c {
        lemma_find_from_hit(s, c, i + 1);
        if exists|j: int| i <= j < s.len() && s[j] == c {
            let j = choose|j: int| i <= j < s.len() && s[j] == c;
            assert(j != i);
        }
    }
}

} // verus!
