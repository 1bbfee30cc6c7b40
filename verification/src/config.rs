//! The configuration patch: given the server configuration's text and a
//! selected level, rewrite the quoted map path `"/levels/<old>/info.json"`
//! to name the selected level instead.
//!
//! Reading and rewriting the file on disk is the caller's job; failure
//! there is non-fatal to the protocol. This module is the pure text
//! substitution: the first occurrence of the bracketed path pattern has
//! its level segment replaced; text without the pattern comes back
//! unchanged.

use vstd::prelude::*;
use vstd::string::*;
use crate::codec::{starts_with_at, starts_with_vec, str_chars, string_from_chars};

verus! {

/// The pattern's opening, `"/levels/`.
pub open spec fn lit_path_open() -> Seq<char> {
    seq!['"', '/', 'l', 'e', 'v', 'e', 'l', 's', '/']
}

/// The pattern's closing, `/info.json"`.
pub open spec fn lit_path_close() -> Seq<char> {
    seq!['/', 'i', 'n', 'f', 'o', '.', 'j', 's', 'o', 'n', '"']
}

/// The first position at or past `k` where the level segment ends: a
/// slash, a quote, or the end of the text.
pub open spec fn segment_end(s: Seq<char>, k: int) -> int
    decreases s.len() - k,
{
    if k < 0 || k >= s.len() {
        s.len() as int
    } else if s[k] == '/' || s[k] == '"' {
        k
    } else {
        segment_end(s, k + 1)
    }
}

/// The bracketed path pattern stands at `i`: the opening, a non-empty
/// slash- and quote-free level segment, then the closing.
pub open spec fn pattern_at(s: Seq<char>, i: int) -> bool {
    starts_with_at(s, lit_path_open(), i) && segment_end(s, i + 9) > i + 9 && starts_with_at(
        s,
        lit_path_close(),
        segment_end(s, i + 9),
    )
}

/// The first position at or past `i` where the pattern stands.
pub open spec fn first_pattern_from(s: Seq<char>, i: int) -> Option<int>
    decreases s.len() - i,
{
    if i < 0 || i >= s.len() {
        None
    } else if pattern_at(s, i) {
        Some(i)
    } else {
        first_pattern_from(s, i + 1)
    }
}

/// The text with the pattern's level segment at `i` replaced by `name`.
pub open spec fn patched_at(s: Seq<char>, i: int, name: Seq<char>) -> Seq<char> {
    s.subrange(0, i + 9) + name + s.skip(segment_end(s, i + 9))
}

/// The whole substitution: the first occurrence of the pattern has its
/// level segment replaced; text without the pattern is unchanged.
pub open spec fn patch_spec(s: Seq<char>, name: Seq<char>) -> Seq<char> {
    match first_pattern_from(s, 0) {
        Some(i) => patched_at(s, i, name),
        None => s,
    }
}

/// Where the level segment ends, walked out character by character.
fn segment_end_exec(v: &Vec<char>, start: usize) -> (r: usize)
    requires
        start <= v@.len(),
    ensures
        r == segment_end(v@, start as int),
        start <= r <= v@.len(),
{
    let mut k = start;
    while k < v.len()
        invariant
            start <= k <= v@.len(),
            segment_end(v@, start as int) == segment_end(v@, k as int),
        decreases v@.len() - k,
    {
        let c = v[k];
        if c == '/' || c == '"' {
            return k;
        }
        k += 1;
    }
    k
}

/// The pattern's opening as characters.
fn lit_path_open_vec() -> (r: Vec<char>)
    ensures
        r@ == lit_path_open(),
{
    let mut out: Vec<char> = Vec::new();
    out.push('"');
    out.push('/');
    out.push('l');
    out.push('e');
    out.push('v');
    out.push('e');
    out.push('l');
    out.push('s');
    out.push('/');
    assert(out@ =~= lit_path_open());
    out
}

/// The pattern's closing as characters.
fn lit_path_close_vec() -> (r: Vec<char>)
    ensures
        r@ == lit_path_close(),
{
    let mut out: Vec<char> = Vec::new();
    out.push('/');
    out.push('i');
    out.push('n');
    out.push('f');
    out.push('o');
    out.push('.');
    out.push('j');
    out.push('s');
    out.push('o');
    out.push('n');
    out.push('"');
    assert(out@ =~= lit_path_close());
    out
}

/// The pattern stands at `i`.
fn pattern_at_exec(v: &Vec<char>, i: usize, open: &Vec<char>, close: &Vec<char>) -> (r: bool)
    requires
        open@ == lit_path_open(),
        close@ == lit_path_close(),
        i < v@.len(),
    ensures
        r == pattern_at(v@, i as int),
{
    if !starts_with_vec(v, open, i) {
        return false;
    }
    let n = v.len();
    assert(v@.len() == n);
    let seg_start = i + 9;
    let j = segment_end_exec(v, seg_start);
    if j <= seg_start {
        return false;
    }
    starts_with_vec(v, close, j)
}

/// Rewrites the configuration text so the quoted map path names `name`:
/// the first occurrence of `"/levels/<segment>/info.json"` has its
/// segment replaced by `name`; text without that pattern is unchanged.
pub fn patch_config(content: &str, name: &str) -> (r: String)
    ensures
        r@ == patch_spec(content@, name@),
{
    let v = str_chars(content);
    let open = lit_path_open_vec();
    let close = lit_path_close_vec();
    let n = v.len();
    let mut i: usize = 0;
    while i < n
        invariant
            i <= n,
            n == v@.len(),
            v@ == content@,
            open@ == lit_path_open(),
            close@ == lit_path_close(),
            first_pattern_from(v@, 0) == first_pattern_from(v@, i as int),
        decreases n - i,
    {
        if pattern_at_exec(&v, i, &open, &close) {
            let seg_start = i + 9;
            let j = segment_end_exec(&v, seg_start);
            let mut out: Vec<char> = Vec::new();
            let mut a: usize = 0;
            while a < seg_start
                invariant
                    a <= seg_start,
                    seg_start <= v@.len(),
                    out@ =~= v@.subrange(0, a as int),
                decreases seg_start - a,
            {
                out.push(v[a]);
                a += 1;
                assert(out@ =~= v@.subrange(0, a as int));
            }
            let name_chars = str_chars(name);
            let mut b: usize = 0;
            while b < name_chars.len()
                invariant
                    b <= name_chars@.len(),
                    seg_start <= v@.len(),
                    out@ =~= v@.subrange(0, seg_start as int) + name_chars@.take(b as int),
                decreases name_chars@.len() - b,
            {
                out.push(name_chars[b]);
                b += 1;
                assert(out@ =~= v@.subrange(0, seg_start as int) + name_chars@.take(b as int));
            }
            proof {
                assert(name_chars@.take(name_chars@.len() as int) =~= name_chars@);
            }
            let mut c = j;
            while c < v.len()
                invariant
                    j <= c <= v@.len(),
                    out@ =~= v@.subrange(0, seg_start as int) + name@ + v@.subrange(
                        j as int,
                        c as int,
                    ),
                decreases v@.len() - c,
            {
                out.push(v[c]);
                c += 1;
                assert(out@ =~= v@.subrange(0, seg_start as int) + name@ + v@.subrange(
                    j as int,
                    c as int,
                ));
            }
            proof {
                assert(v@.subrange(j as int, v@.len() as int) =~= v@.skip(j as int));
                assert(out@ =~= patched_at(v@, i as int, name@));
            }
            assert(first_pattern_from(v@, i as int) == Some(i as int));
            return string_from_chars(out);
        }
        assert(first_pattern_from(v@, i as int) == first_pattern_from(v@, i as int + 1));
        i += 1;
    }
    proof {
        assert(first_pattern_from(v@, n as int) is None);
    }
    String::from_str(content)
}

} // verus!
