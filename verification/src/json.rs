//! Primitives of the persisted-document and payload encoding: JSON string
//! escaping, quoted strings, `null`, numbers and the fixed enum tokens, each
//! with a specification-level encoder, a specification-level parser, a
//! round-trip proof, and executable encode / parse functions.
//!
//! The encoding is the canonical form this library both writes and reads:
//! object keys in a fixed order, no insignificant whitespace, and the escapes
//! `\"`, `\\`, `\n`, `\r`, `\t` (control characters outside this set are
//! written as they are).

use crate::review::{GitBackend, Side};
use crate::text::{dec_rep, is_digit, lemma_dec_rep_digits, lemma_parse_u32_of_rep, parse_u32,
    push_char, scan_u32};
use vstd::prelude::*;

verus! {

// ---------------------------------------------------------------------------
// Specification-level encoders
// ---------------------------------------------------------------------------

/// The escaped form of one character inside a JSON string.
pub open spec fn esc_char(c: char) -> Seq<char> {
    if c == '"' {
        seq!['\\', '"']
    } else if c == '\\' {
        seq!['\\', '\\']
    } else if c == '\n' {
        seq!['\\', 'n']
    } else if c == '\r' {
        seq!['\\', 'r']
    } else if c == '\t' {
        seq!['\\', 't']
    } else {
        seq![c]
    }
}

/// The escaped form of a whole text.
pub open spec fn esc_str(s: Seq<char>) -> Seq<char>
    decreases s.len(),
{
    if s.len() == 0 {
        Seq::empty()
    } else {
        esc_char(s[0]) + esc_str(s.drop_first())
    }
}

/// A quoted, escaped JSON string.
pub open spec fn enc_string(s: Seq<char>) -> Seq<char> {
    seq!['"'] + esc_str(s) + seq!['"']
}

pub open spec fn enc_u32(n: u32) -> Seq<char> {
    dec_rep(n as nat)
}

pub open spec fn null_seq() -> Seq<char> {
    seq!['n', 'u', 'l', 'l']
}

pub open spec fn tok_right() -> Seq<char> {
    seq!['"', 'R', 'I', 'G', 'H', 'T', '"']
}

pub open spec fn tok_left() -> Seq<char> {
    seq!['"', 'L', 'E', 'F', 'T', '"']
}

pub open spec fn tok_github() -> Seq<char> {
    seq!['"', 'G', 'i', 't', 'H', 'u', 'b', '"']
}

pub open spec fn tok_gitlab() -> Seq<char> {
    seq!['"', 'G', 'i', 't', 'L', 'a', 'b', '"']
}

pub open spec fn enc_side(sd: Side) -> Seq<char> {
    match sd {
        Side::RIGHT => tok_right(),
        Side::LEFT => tok_left(),
    }
}

pub open spec fn enc_backend(b: GitBackend) -> Seq<char> {
    match b {
        GitBackend::GitHub => tok_github(),
        GitBackend::GitLab => tok_gitlab(),
    }
}

pub open spec fn enc_opt_u32(o: Option<u32>) -> Seq<char> {
    match o {
        None => null_seq(),
        Some(n) => enc_u32(n),
    }
}

pub open spec fn enc_opt_string(o: Option<Seq<char>>) -> Seq<char> {
    match o {
        None => null_seq(),
        Some(s) => enc_string(s),
    }
}

pub open spec fn enc_opt_side(o: Option<Side>) -> Seq<char> {
    match o {
        None => null_seq(),
        Some(sd) => enc_side(sd),
    }
}

// ---------------------------------------------------------------------------
// Specification-level parsers
// ---------------------------------------------------------------------------

/// Consumes exactly the token `p` from the front of `s`.
pub open spec fn parse_exact(s: Seq<char>, p: Seq<char>) -> Option<int> {
    if p.len() <= s.len() && s.take(p.len() as int) == p {
        Some(p.len() as int)
    } else {
        None
    }
}

/// What an escape character decodes to.
pub open spec fn unesc_char(e: char) -> char {
    if e == '"' {
        '"'
    } else if e == '\\' {
        '\\'
    } else if e == 'n' {
        '\n'
    } else if e == 'r' {
        '\r'
    } else {
        '\t'
    }
}

/// Consumes the interior of a quoted string up to and including the closing
/// quote; yields the decoded text.
pub open spec fn parse_str_body(s: Seq<char>) -> Option<(int, Seq<char>)>
    decreases s.len(),
{
    if s.len() == 0 {
        None
    } else if s[0] == '"' {
        Some((1, Seq::empty()))
    } else if s[0] == '\\' {
        if s.len() < 2 {
            None
        } else {
            let e = s[1];
            if e == '"' || e == '\\' || e == 'n' || e == 'r' || e == 't' {
                match parse_str_body(s.skip(2)) {
                    None => None,
                    Some((m, v)) => Some((2 + m, seq![unesc_char(e)] + v)),
                }
            } else {
                None
            }
        }
    } else {
        match parse_str_body(s.skip(1)) {
            None => None,
            Some((m, v)) => Some((1 + m, seq![s[0]] + v)),
        }
    }
}

/// Consumes a quoted string.
pub open spec fn parse_string(s: Seq<char>) -> Option<(int, Seq<char>)> {
    if s.len() >= 1 && s[0] == '"' {
        match parse_str_body(s.skip(1)) {
            None => None,
            Some((m, v)) => if 0 <= m && 1 + m <= s.len() {
                Some((1 + m, v))
            } else {
                None
            },
        }
    } else {
        None
    }
}

pub open spec fn parse_side(s: Seq<char>) -> Option<(int, Side)> {
    if parse_exact(s, tok_right()) is Some {
        Some((tok_right().len() as int, Side::RIGHT))
    } else if parse_exact(s, tok_left()) is Some {
        Some((tok_left().len() as int, Side::LEFT))
    } else {
        None
    }
}

pub open spec fn parse_backend(s: Seq<char>) -> Option<(int, GitBackend)> {
    if parse_exact(s, tok_github()) is Some {
        Some((tok_github().len() as int, GitBackend::GitHub))
    } else if parse_exact(s, tok_gitlab()) is Some {
        Some((tok_gitlab().len() as int, GitBackend::GitLab))
    } else {
        None
    }
}

pub open spec fn parse_opt_u32(s: Seq<char>) -> Option<(int, Option<u32>)> {
    if parse_exact(s, null_seq()) is Some {
        Some((null_seq().len() as int, None))
    } else {
        match parse_u32(s) {
            None => None,
            Some((n, v)) => Some((n, Some(v))),
        }
    }
}

pub open spec fn parse_opt_string(s: Seq<char>) -> Option<(int, Option<Seq<char>>)> {
    if parse_exact(s, null_seq()) is Some {
        Some((null_seq().len() as int, None))
    } else {
        match parse_string(s) {
            None => None,
            Some((n, v)) => Some((n, Some(v))),
        }
    }
}

pub open spec fn parse_opt_side(s: Seq<char>) -> Option<(int, Option<Side>)> {
    if parse_exact(s, null_seq()) is Some {
        Some((null_seq().len() as int, None))
    } else {
        match parse_side(s) {
            None => None,
            Some((n, v)) => Some((n, Some(v))),
        }
    }
}

// ---------------------------------------------------------------------------
// Round trips: parsing an encoding, with anything after it, gives the value
// back and consumes exactly the encoding
// ---------------------------------------------------------------------------

pub proof fn lemma_rt_exact(p: Seq<char>, rest: Seq<char>)
    ensures
        parse_exact(p + rest, p) == Some(p.len() as int),
{
    assert((p + rest).take(p.len() as int) =~= p);
}

proof fn lemma_rt_str_body(v: Seq<char>, rest: Seq<char>)
    ensures
        parse_str_body(esc_str(v) + seq!['"'] + rest) == Some((esc_str(v).len() + 1int, v)),
    decreases v.len(),
{
    let s = esc_str(v) + seq!['"'] + rest;
    if v.len() == 0 {
        assert(esc_str(v) =~= Seq::<char>::empty());
        assert(s =~= seq!['"'] + rest);
        assert(s[0] == '"');
        assert(Seq::<char>::empty() =~= v);
    } else {
        let c = v[0];
        let v2 = v.drop_first();
        lemma_rt_str_body(v2, rest);
        let tail = esc_str(v2) + seq!['"'] + rest;
        assert(esc_str(v) =~= esc_char(c) + esc_str(v2));
        assert(s =~= esc_char(c) + tail);
        if c == '"' || c == '\\' || c == '\n' || c == '\r' || c == '\t' {
            let e = esc_char(c)[1];
            assert(s[0] == '\\');
            assert(s[1] == e);
            assert(s.skip(2) =~= tail);
            assert(unesc_char(e) == c);
            assert(seq![c] + v2 =~= v);
        } else {
            assert(s[0] == c);
            assert(s.skip(1) =~= tail);
            assert(seq![c] + v2 =~= v);
        }
    }
}

pub proof fn lemma_rt_string(v: Seq<char>, rest: Seq<char>)
    ensures
        parse_string(enc_string(v) + rest) == Some((enc_string(v).len() as int, v)),
{
    let s = enc_string(v) + rest;
    assert(s[0] == '"');
    assert(s.skip(1) =~= esc_str(v) + seq!['"'] + rest);
    lemma_rt_str_body(v, rest);
}

pub proof fn lemma_rt_side(sd: Side, rest: Seq<char>)
    ensures
        parse_side(enc_side(sd) + rest) == Some((enc_side(sd).len() as int, sd)),
{
    match sd {
        Side::RIGHT => {
            lemma_rt_exact(tok_right(), rest);
        },
        Side::LEFT => {
            let s = tok_left() + rest;
            if parse_exact(s, tok_right()) is Some {
                assert(s.take(tok_right().len() as int)[4] == s[4]);
                assert(s[4] == tok_left()[4]);
                assert(false);
            }
            lemma_rt_exact(tok_left(), rest);
        },
    }
}

pub proof fn lemma_rt_backend(b: GitBackend, rest: Seq<char>)
    ensures
        parse_backend(enc_backend(b) + rest) == Some((enc_backend(b).len() as int, b)),
{
    match b {
        GitBackend::GitHub => {
            lemma_rt_exact(tok_github(), rest);
        },
        GitBackend::GitLab => {
            let s = tok_gitlab() + rest;
            if parse_exact(s, tok_github()) is Some {
                assert(s.take(tok_github().len() as int)[4] == s[4]);
                assert(s[4] == tok_gitlab()[4]);
                assert(false);
            }
            lemma_rt_exact(tok_gitlab(), rest);
        },
    }
}

pub proof fn lemma_rt_opt_u32(o: Option<u32>, rest: Seq<char>)
    requires
        rest.len() > 0,
        !is_digit(rest[0]),
    ensures
        parse_opt_u32(enc_opt_u32(o) + rest) == Some((enc_opt_u32(o).len() as int, o)),
{
    match o {
        None => {
            lemma_rt_exact(null_seq(), rest);
        },
        Some(n) => {
            let s = enc_u32(n) + rest;
            lemma_dec_rep_digits(n as nat);
            if parse_exact(s, null_seq()) is Some {
                assert(s.take(null_seq().len() as int)[0] == s[0]);
                assert(s[0] == dec_rep(n as nat)[0]);
                assert(is_digit(s[0]));
                assert(false);
            }
            lemma_parse_u32_of_rep(n, rest);
        },
    }
}

pub proof fn lemma_rt_opt_string(o: Option<Seq<char>>, rest: Seq<char>)
    ensures
        parse_opt_string(enc_opt_string(o) + rest) == Some((enc_opt_string(o).len() as int, o)),
{
    match o {
        None => {
            lemma_rt_exact(null_seq(), rest);
        },
        Some(v) => {
            let s = enc_string(v) + rest;
            if parse_exact(s, null_seq()) is Some {
                assert(s.take(null_seq().len() as int)[0] == s[0]);
                assert(s[0] == '"');
                assert(false);
            }
            lemma_rt_string(v, rest);
        },
    }
}

pub proof fn lemma_rt_opt_side(o: Option<Side>, rest: Seq<char>)
    ensures
        parse_opt_side(enc_opt_side(o) + rest) == Some((enc_opt_side(o).len() as int, o)),
{
    match o {
        None => {
            lemma_rt_exact(null_seq(), rest);
        },
        Some(sd) => {
            let s = enc_side(sd) + rest;
            if parse_exact(s, null_seq()) is Some {
                assert(s.take(null_seq().len() as int)[0] == s[0]);
                assert(s[0] == enc_side(sd)[0]);
                assert(enc_side(sd)[0] == '"');
                assert(false);
            }
            lemma_rt_side(sd, rest);
        },
    }
}

// ---------------------------------------------------------------------------
// Executable encoders
// ---------------------------------------------------------------------------

/// `esc_str` distributes over appending one character at the end.
proof fn lemma_esc_str_snoc(a: Seq<char>, c: char)
    ensures
        esc_str(a.push(c)) == esc_str(a) + esc_char(c),
    decreases a.len(),
{
    if a.len() == 0 {
        assert(esc_str(Seq::<char>::empty()) =~= Seq::<char>::empty());
        assert(a.push(c)[0] == c);
        assert(a.push(c).drop_first() =~= Seq::<char>::empty());
        assert(esc_str(a.push(c)) =~= esc_char(c));
        assert(esc_str(a) + esc_char(c) =~= esc_char(c));
    } else {
        lemma_esc_str_snoc(a.drop_first(), c);
        assert(a.push(c)[0] == a[0]);
        assert(a.push(c).drop_first() =~= a.drop_first().push(c));
        assert(esc_str(a) + esc_char(c) =~= esc_char(a[0]) + (esc_str(a.drop_first()) + esc_char(
            c,
        )));
    }
}

/// Appends the escaped form of `s` to `out`.
pub fn append_escaped(out: &mut String, s: &str)
    ensures
        final(out)@ == old(out)@ + esc_str(s@),
{
    let n: usize = s.unicode_len();
    let mut i: usize = 0;
    proof {
        assert(s@.take(0) =~= Seq::<char>::empty());
        assert(esc_str(s@.take(0)) =~= Seq::<char>::empty());
        assert(out@ =~= old(out)@ + esc_str(s@.take(0)));
    }
    while i < n
        invariant
            n == s@.len(),
            i <= n,
            out@ == old(out)@ + esc_str(s@.take(i as int)),
        decreases n - i,
    {
        let c = s.get_char(i);
        let ghost pre = out@;
        if c == '"' {
            push_char(out, '\\');
            push_char(out, '"');
        } else if c == '\\' {
            push_char(out, '\\');
            push_char(out, '\\');
        } else if c == '\n' {
            push_char(out, '\\');
            push_char(out, 'n');
        } else if c == '\r' {
            push_char(out, '\\');
            push_char(out, 'r');
        } else if c == '\t' {
            push_char(out, '\\');
            push_char(out, 't');
        } else {
            push_char(out, c);
        }
        proof {
            assert(out@ =~= pre + esc_char(c));
            lemma_esc_str_snoc(s@.take(i as int), c);
            assert(s@.take(i + 1 as int) =~= s@.take(i as int).push(c));
            assert(out@ =~= old(out)@ + esc_str(s@.take(i + 1 as int)));
        }
        i = i + 1;
    }
    proof {
        assert(s@.take(n as int) =~= s@);
    }
}

/// Appends the quoted, escaped form of `s` to `out`.
pub fn append_json_string(out: &mut String, s: &str)
    ensures
        final(out)@ == old(out)@ + enc_string(s@),
{
    push_char(out, '"');
    append_escaped(out, s);
    push_char(out, '"');
    proof {
        assert(out@ =~= old(out)@ + enc_string(s@));
    }
}

/// Appends the token `null` to `out`.
pub fn append_null(out: &mut String)
    ensures
        final(out)@ == old(out)@ + null_seq(),
{
    push_char(out, 'n');
    push_char(out, 'u');
    push_char(out, 'l');
    push_char(out, 'l');
    proof {
        assert(out@ =~= old(out)@ + null_seq());
    }
}

pub fn append_side(out: &mut String, sd: Side)
    ensures
        final(out)@ == old(out)@ + enc_side(sd),
{
    match sd {
        Side::RIGHT => {
            out.append("\"RIGHT\"");
            proof {
                reveal_strlit("\"RIGHT\"");
                assert("\"RIGHT\""@ =~= tok_right());
            }
        },
        Side::LEFT => {
            out.append("\"LEFT\"");
            proof {
                reveal_strlit("\"LEFT\"");
                assert("\"LEFT\""@ =~= tok_left());
            }
        },
    }
}

pub fn append_backend(out: &mut String, b: GitBackend)
    ensures
        final(out)@ == old(out)@ + enc_backend(b),
{
    match b {
        GitBackend::GitHub => {
            out.append("\"GitHub\"");
            proof {
                reveal_strlit("\"GitHub\"");
                assert("\"GitHub\""@ =~= tok_github());
            }
        },
        GitBackend::GitLab => {
            out.append("\"GitLab\"");
            proof {
                reveal_strlit("\"GitLab\"");
                assert("\"GitLab\""@ =~= tok_gitlab());
            }
        },
    }
}

pub fn append_opt_u32(out: &mut String, o: &Option<u32>)
    ensures
        final(out)@ == old(out)@ + enc_opt_u32(*o),
{
    match o {
        None => append_null(out),
        Some(n) => crate::text::append_dec_u32(out, *n),
    }
}

pub fn append_opt_string(out: &mut String, o: &Option<String>)
    ensures
        final(out)@ == old(out)@ + enc_opt_string(crate::review::opt_string_view(*o)),
{
    match o {
        None => append_null(out),
        Some(s) => append_json_string(out, s.as_str()),
    }
}

pub fn append_opt_side(out: &mut String, o: &Option<Side>)
    ensures
        final(out)@ == old(out)@ + enc_opt_side(*o),
{
    match o {
        None => append_null(out),
        Some(sd) => append_side(out, *sd),
    }
}

// ---------------------------------------------------------------------------
// Executable parsers, each tied to its specification-level parser applied to
// the remainder of the input
// ---------------------------------------------------------------------------

/// Consumes the token `lit` at character index `i` of `s`.
pub fn p_exact(s: &str, i: usize, lit: &str, n: usize) -> (r: Option<usize>)
    requires
        i <= n == s@.len(),
    ensures
        match r {
            Some(j) => i <= j <= n && parse_exact(s@.skip(i as int), lit@) == Some(j - i),
            None => parse_exact(s@.skip(i as int), lit@) is None,
        },
{
    let pn: usize = lit.unicode_len();
    let ok = crate::text::match_at(s, i, lit, n, pn);
    proof {
        assert(s@.skip(i as int).len() == n - i);
        if i + pn <= n {
            assert(s@.skip(i as int).take(pn as int) =~= s@.subrange(i as int, i + pn as int));
        }
    }
    if ok {
        Some(i + pn)
    } else {
        None
    }
}

/// Consumes the interior of a quoted string (after the opening quote),
/// including the closing quote, decoding escapes.
pub fn p_str_body(s: &str, i: usize, n: usize) -> (r: Option<(usize, String)>)
    requires
        i <= n == s@.len(),
    ensures
        match r {
            Some((j, v)) => i <= j <= n && parse_str_body(s@.skip(i as int)) == Some((j - i, v@)),
            None => parse_str_body(s@.skip(i as int)) is None,
        },
{
    let mut j: usize = i;
    let mut out = String::new();
    proof {
        let r0 = parse_str_body(s@.skip(i as int));
        match r0 {
            None => {},
            Some((m, v)) => {
                assert(out@ + v =~= v);
            },
        }
        assert(parse_str_body(s@.skip(i as int)) == sb_step(
            parse_str_body(s@.skip(i as int)),
            0,
            out@,
        ));
    }
    loop
        invariant
            i <= j <= n == s@.len(),
            parse_str_body(s@.skip(i as int)) == sb_step(
                parse_str_body(s@.skip(j as int)),
                j - i,
                out@,
            ),
        decreases n - j,
    {
        let ghost t = s@.skip(j as int);
        proof {
            assert(t.len() == n - j);
        }
        if j >= n {
            proof {
                assert(parse_str_body(t) is None);
            }
            return None;
        }
        let c = s.get_char(j);
        proof {
            assert(t[0] == s@[j as int]);
        }
        if c == '"' {
            proof {
                assert(parse_str_body(t) == Some((1int, Seq::<char>::empty())));
                assert(out@ + Seq::<char>::empty() =~= out@);
            }
            return Some((j + 1, out));
        }
        if c == '\\' {
            if j + 1 >= n {
                proof {
                    assert(t.len() < 2);
                    assert(parse_str_body(t) is None);
                }
                return None;
            }
            let e = s.get_char(j + 1);
            proof {
                assert(t[1] == s@[j + 1 as int]);
            }
            if e == '"' || e == '\\' || e == 'n' || e == 'r' || e == 't' {
                let u: char = if e == '"' {
                    '"'
                } else if e == '\\' {
                    '\\'
                } else if e == 'n' {
                    '\n'
                } else if e == 'r' {
                    '\r'
                } else {
                    '\t'
                };
                let ghost pre = out@;
                push_char(&mut out, u);
                proof {
                    assert(u == unesc_char(e));
                    assert(t.skip(2) =~= s@.skip(j + 2 as int));
                    let x = parse_str_body(s@.skip(j + 2 as int));
                    assert(parse_str_body(t) == sb_step(x, 2, seq![unesc_char(e)]));
                    match x {
                        None => {},
                        Some((m, v)) => {
                            assert(pre + (seq![unesc_char(e)] + v) =~= out@ + v);
                        },
                    }
                }
                j = j + 2;
            } else {
                proof {
                    assert(parse_str_body(t) is None);
                }
                return None;
            }
        } else {
            let ghost pre = out@;
            push_char(&mut out, c);
            proof {
                assert(t.skip(1) =~= s@.skip(j + 1 as int));
                let x = parse_str_body(s@.skip(j + 1 as int));
                assert(parse_str_body(t) == sb_step(x, 1, seq![c]));
                match x {
                    None => {},
                    Some((m, v)) => {
                        assert(pre + (seq![c] + v) =~= out@ + v);
                    },
                }
            }
            j = j + 1;
        }
    }
}

/// Composition of one parsing step: `k` characters already consumed and
/// `pre` already decoded, followed by the outcome `r`.
pub open spec fn sb_step(r: Option<(int, Seq<char>)>, k: int, pre: Seq<char>) -> Option<
    (int, Seq<char>),
> {
    match r {
        None => None,
        Some((m, v)) => Some((m + k, pre + v)),
    }
}

/// Consumes a quoted string at character index `i` of `s`.
pub fn p_string(s: &str, i: usize, n: usize) -> (r: Option<(usize, String)>)
    requires
        i <= n == s@.len(),
    ensures
        match r {
            Some((j, v)) => i <= j <= n && parse_string(s@.skip(i as int)) == Some((j - i, v@)),
            None => parse_string(s@.skip(i as int)) is None,
        },
{
    let ghost t = s@.skip(i as int);
    proof {
        assert(t.len() == n - i);
    }
    if i >= n {
        return None;
    }
    let c = s.get_char(i);
    proof {
        assert(t[0] == s@[i as int]);
    }
    if c != '"' {
        return None;
    }
    proof {
        assert(t.skip(1) =~= s@.skip(i + 1 as int));
    }
    match p_str_body(s, i + 1, n) {
        None => None,
        Some((j, v)) => Some((j, v)),
    }
}

/// Consumes a diff-side token at character index `i` of `s`.
pub fn p_side(s: &str, i: usize, n: usize) -> (r: Option<(usize, Side)>)
    requires
        i <= n == s@.len(),
    ensures
        match r {
            Some((j, v)) => i <= j <= n && parse_side(s@.skip(i as int)) == Some((j - i, v)),
            None => parse_side(s@.skip(i as int)) is None,
        },
{
    proof {
        reveal_strlit("\"RIGHT\"");
        assert("\"RIGHT\""@ =~= tok_right());
        reveal_strlit("\"LEFT\"");
        assert("\"LEFT\""@ =~= tok_left());
    }
    match p_exact(s, i, "\"RIGHT\"", n) {
        Some(j) => Some((j, Side::RIGHT)),
        None => match p_exact(s, i, "\"LEFT\"", n) {
            Some(j) => Some((j, Side::LEFT)),
            None => None,
        },
    }
}

/// Consumes a backend token at character index `i` of `s`.
pub fn p_backend(s: &str, i: usize, n: usize) -> (r: Option<(usize, GitBackend)>)
    requires
        i <= n == s@.len(),
    ensures
        match r {
            Some((j, v)) => i <= j <= n && parse_backend(s@.skip(i as int)) == Some((j - i, v)),
            None => parse_backend(s@.skip(i as int)) is None,
        },
{
    proof {
        reveal_strlit("\"GitHub\"");
        assert("\"GitHub\""@ =~= tok_github());
        reveal_strlit("\"GitLab\"");
        assert("\"GitLab\""@ =~= tok_gitlab());
    }
    match p_exact(s, i, "\"GitHub\"", n) {
        Some(j) => Some((j, GitBackend::GitHub)),
        None => match p_exact(s, i, "\"GitLab\"", n) {
            Some(j) => Some((j, GitBackend::GitLab)),
            None => None,
        },
    }
}

/// Consumes `null` or a decimal number at character index `i` of `s`.
pub fn p_opt_u32(s: &str, i: usize, n: usize) -> (r: Option<(usize, Option<u32>)>)
    requires
        i <= n == s@.len(),
    ensures
        match r {
            Some((j, v)) => i <= j <= n && parse_opt_u32(s@.skip(i as int)) == Some((j - i, v)),
            None => parse_opt_u32(s@.skip(i as int)) is None,
        },
{
    proof {
        reveal_strlit("null");
        assert("null"@ =~= null_seq());
    }
    match p_exact(s, i, "null", n) {
        Some(j) => Some((j, None)),
        None => match scan_u32(s, i, n) {
            Some((j, v)) => Some((j, Some(v))),
            None => None,
        },
    }
}

/// Consumes `null` or a quoted string at character index `i` of `s`.
pub fn p_opt_string(s: &str, i: usize, n: usize) -> (r: Option<(usize, Option<String>)>)
    requires
        i <= n == s@.len(),
    ensures
        match r {
            Some((j, v)) => i <= j <= n && parse_opt_string(s@.skip(i as int)) == Some(
                (j - i, crate::review::opt_string_view(v)),
            ),
            None => parse_opt_string(s@.skip(i as int)) is None,
        },
{
    proof {
        reveal_strlit("null");
        assert("null"@ =~= null_seq());
    }
    match p_exact(s, i, "null", n) {
        Some(j) => Some((j, None)),
        None => match p_string(s, i, n) {
            Some((j, v)) => Some((j, Some(v))),
            None => None,
        },
    }
}

/// Consumes `null` or a diff-side token at character index `i` of `s`.
pub fn p_opt_side(s: &str, i: usize, n: usize) -> (r: Option<(usize, Option<Side>)>)
    requires
        i <= n == s@.len(),
    ensures
        match r {
            Some((j, v)) => i <= j <= n && parse_opt_side(s@.skip(i as int)) == Some((j - i, v)),
            None => parse_opt_side(s@.skip(i as int)) is None,
        },
{
    proof {
        reveal_strlit("null");
        assert("null"@ =~= null_seq());
    }
    match p_exact(s, i, "null", n) {
        Some(j) => Some((j, None)),
        None => match p_side(s, i, n) {
            Some((j, v)) => Some((j, Some(v))),
            None => None,
        },
    }
}

} // verus!
