//! The persisted review and configuration documents: specification-level
//! encoders and parsers for the canonical JSON form, proofs that parsing an
//! encoded document gives the original value back, and the executable
//! `to_json` / `from_json` functions.
//!
//! One review is stored per pull/merge request as
//! `{"owner":…,"repo":…,"backend":…,"backend_url":…,"pr_number":…,"body":…,
//! "comments":[…],"in_progress_comment":…}`; the configuration record as
//! `{"owner":…,"repo":…,"backend":…,"backend_url":…,"active_pr":…}`.

use crate::config::{Config, ConfigView};
use crate::json::{enc_backend, enc_opt_side, enc_opt_string, enc_opt_u32, enc_side, enc_string,
    enc_u32, lemma_rt_backend, lemma_rt_exact, lemma_rt_opt_side, lemma_rt_opt_string,
    lemma_rt_opt_u32, lemma_rt_side, lemma_rt_string, null_seq, parse_backend, parse_exact,
    parse_opt_side, parse_opt_string, parse_opt_u32, parse_side, parse_string,
    append_json_string, append_side, append_opt_u32, append_opt_side, p_backend, p_exact,
    p_opt_side, p_opt_string, p_opt_u32, p_side, p_string};
use crate::review::{comments_view, Comment, CommentView, Review, ReviewView};
use crate::text::{is_digit, lemma_parse_u32_of_rep, parse_u32, push_char, scan_u32};
use vstd::prelude::*;

verus! {

// ---------------------------------------------------------------------------
// Specification-level encoders
// ---------------------------------------------------------------------------

pub open spec fn enc_comment(c: CommentView) -> Seq<char> {
    "{\"body\":"@ + enc_string(c.body) + ",\"line\":"@ + enc_u32(c.line) + ",\"path\":"@
        + enc_string(c.path) + ",\"side\":"@ + enc_side(c.side) + ",\"start_line\":"@
        + enc_opt_u32(c.start_line) + ",\"start_side\":"@ + enc_opt_side(c.start_side)
        + seq!['}']
}

pub open spec fn enc_opt_comment(o: Option<CommentView>) -> Seq<char> {
    match o {
        None => null_seq(),
        Some(c) => enc_comment(c),
    }
}

/// The tail of a comment list after an element: either the closing bracket,
/// or a comma, the next comment, and the tail after it.
pub open spec fn enc_comments_rest(cs: Seq<CommentView>) -> Seq<char>
    decreases cs.len(),
{
    if cs.len() == 0 {
        seq![']']
    } else {
        seq![','] + enc_comment(cs[0]) + enc_comments_rest(cs.drop_first())
    }
}

pub open spec fn enc_comments(cs: Seq<CommentView>) -> Seq<char> {
    if cs.len() == 0 {
        seq!['[', ']']
    } else {
        seq!['['] + enc_comment(cs[0]) + enc_comments_rest(cs.drop_first())
    }
}

pub open spec fn enc_review(rv: ReviewView) -> Seq<char> {
    "{\"owner\":"@ + enc_string(rv.owner) + ",\"repo\":"@ + enc_string(rv.repo) + ",\"backend\":"@
        + enc_backend(rv.backend) + ",\"backend_url\":"@ + enc_opt_string(rv.backend_url)
        + ",\"pr_number\":"@ + enc_u32(rv.pr_number) + ",\"body\":"@ + enc_string(rv.body)
        + ",\"comments\":"@ + enc_comments(rv.comments) + ",\"in_progress_comment\":"@
        + enc_opt_comment(rv.in_progress_comment) + seq!['}']
}

pub open spec fn enc_config(cv: ConfigView) -> Seq<char> {
    "{\"owner\":"@ + enc_string(cv.owner) + ",\"repo\":"@ + enc_string(cv.repo) + ",\"backend\":"@
        + enc_backend(cv.backend) + ",\"backend_url\":"@ + enc_opt_string(cv.backend_url)
        + ",\"active_pr\":"@ + enc_opt_u32(cv.active_pr) + seq!['}']
}

// ---------------------------------------------------------------------------
// Specification-level parsers
// ---------------------------------------------------------------------------

/// A step of a sequential parse stays within the input.
pub open spec fn step_ok(s: Seq<char>, used: int) -> bool {
    0 <= used <= s.len()
}

#[verifier::opaque]
pub open spec fn parse_comment(s: Seq<char>) -> Option<(int, CommentView)> {
    match parse_exact(s, "{\"body\":"@) {
        None => None,
        Some(n0) => match parse_string(s.skip(n0)) {
            None => None,
            Some((n1, body)) => {
                let i1 = n0 + n1;
                if !step_ok(s, i1) {
                    None
                } else {
                    match parse_exact(s.skip(i1), ",\"line\":"@) {
                        None => None,
                        Some(n2) => {
                            let i2 = i1 + n2;
                            match parse_u32(s.skip(i2)) {
                                None => None,
                                Some((n3, line)) => {
                                    let i3 = i2 + n3;
                                    if !step_ok(s, i3) {
                                        None
                                    } else {
                                        match parse_exact(s.skip(i3), ",\"path\":"@) {
                                            None => None,
                                            Some(n4) => {
                                                let i4 = i3 + n4;
                                                match parse_string(s.skip(i4)) {
                                                    None => None,
                                                    Some((n5, path)) => {
                                                        let i5 = i4 + n5;
                                                        if !step_ok(s, i5) {
                                                            None
                                                        } else {
                                                            parse_comment_tail(s, i5, body, line, path)
                                                        }
                                                    },
                                                }
                                            },
                                        }
                                    }
                                },
                            }
                        },
                    }
                }
            },
        },
    }
}

/// The side and span fields of a comment object, from `",\"side\":"` on.
#[verifier::opaque]
pub open spec fn parse_comment_tail(
    s: Seq<char>,
    i5: int,
    body: Seq<char>,
    line: u32,
    path: Seq<char>,
) -> Option<(int, CommentView)> {
    match parse_exact(s.skip(i5), ",\"side\":"@) {
        None => None,
        Some(n6) => {
            let i6 = i5 + n6;
            match parse_side(s.skip(i6)) {
                None => None,
                Some((n7, side)) => {
                    let i7 = i6 + n7;
                    if !step_ok(s, i7) {
                        None
                    } else {
                        match parse_exact(s.skip(i7), ",\"start_line\":"@) {
                            None => None,
                            Some(n8) => {
                                let i8 = i7 + n8;
                                match parse_opt_u32(s.skip(i8)) {
                                    None => None,
                                    Some((n9, start_line)) => {
                                        let i9 = i8 + n9;
                                        if !step_ok(s, i9) {
                                            None
                                        } else {
                                            match parse_exact(s.skip(i9), ",\"start_side\":"@) {
                                                None => None,
                                                Some(n10) => {
                                                    let i10 = i9 + n10;
                                                    match parse_opt_side(s.skip(i10)) {
                                                        None => None,
                                                        Some((n11, start_side)) => {
                                                            let i11 = i10 + n11;
                                                            if !step_ok(s, i11) {
                                                                None
                                                            } else {
                                                                match parse_exact(
                                                                    s.skip(i11),
                                                                    seq!['}'],
                                                                ) {
                                                                    None => None,
                                                                    Some(n12) => Some(
                                                                        (
                                                                            i11 + n12,
                                                                            CommentView {
                                                                                body: body,
                                                                                line: line,
                                                                                path: path,
                                                                                side: side,
                                                                                start_line: start_line,
                                                                                start_side: start_side,
                                                                            },
                                                                        ),
                                                                    ),
                                                                }
                                                            }
                                                        },
                                                    }
                                                },
                                            }
                                        }
                                    },
                                }
                            },
                        }
                    }
                },
            }
        },
    }
}

pub open spec fn parse_opt_comment(s: Seq<char>) -> Option<(int, Option<CommentView>)> {
    if parse_exact(s, null_seq()) is Some {
        Some((null_seq().len() as int, None))
    } else {
        match parse_comment(s) {
            None => None,
            Some((n, c)) => Some((n, Some(c))),
        }
    }
}

/// The tail of a comment list: a closing bracket, or a comma followed by a
/// comment and the tail after it.
#[verifier::opaque]
pub open spec fn parse_comments_rest(u: Seq<char>) -> Option<(int, Seq<CommentView>)>
    decreases u.len(),
{
    if u.len() >= 1 && u[0] == ']' {
        Some((1, Seq::empty()))
    } else if u.len() >= 1 && u[0] == ',' {
        match parse_comment(u.skip(1)) {
            None => None,
            Some((n, c)) => {
                if !(0 <= n && 1 + n <= u.len()) {
                    None
                } else {
                    match parse_comments_rest(u.skip(1 + n)) {
                        None => None,
                        Some((m, cs)) => Some((1 + n + m, seq![c] + cs)),
                    }
                }
            },
        }
    } else {
        None
    }
}

#[verifier::opaque]
pub open spec fn parse_comments(s: Seq<char>) -> Option<(int, Seq<CommentView>)> {
    if s.len() < 1 || s[0] != '[' {
        None
    } else {
        let t = s.skip(1);
        if t.len() >= 1 && t[0] == ']' {
            Some((2, Seq::empty()))
        } else {
            match parse_comment(t) {
                None => None,
                Some((n, c)) => {
                    if !(0 <= n && n <= t.len()) {
                        None
                    } else {
                        match parse_comments_rest(t.skip(n)) {
                            None => None,
                            Some((m, cs)) => Some((1 + n + m, seq![c] + cs)),
                        }
                    }
                },
            }
        }
    }
}

#[verifier::opaque]
pub open spec fn parse_review(s: Seq<char>) -> Option<(int, ReviewView)> {
    match parse_exact(s, "{\"owner\":"@) {
        None => None,
        Some(n0) => match parse_string(s.skip(n0)) {
            None => None,
            Some((n1, owner)) => {
                let i1 = n0 + n1;
                if !step_ok(s, i1) {
                    None
                } else {
                    match parse_exact(s.skip(i1), ",\"repo\":"@) {
                        None => None,
                        Some(n2) => {
                            let i2 = i1 + n2;
                            match parse_string(s.skip(i2)) {
                                None => None,
                                Some((n3, repo)) => {
                                    let i3 = i2 + n3;
                                    if !step_ok(s, i3) {
                                        None
                                    } else {
                                        match parse_exact(s.skip(i3), ",\"backend\":"@) {
                                            None => None,
                                            Some(n4) => {
                                                let i4 = i3 + n4;
                                                match parse_backend(s.skip(i4)) {
                                                    None => None,
                                                    Some((n5, backend)) => {
                                                        let i5 = i4 + n5;
                                                        if !step_ok(s, i5) {
                                                            None
                                                        } else {
                                                            parse_review_mid(
                                                                s,
                                                                i5,
                                                                owner,
                                                                repo,
                                                                backend,
                                                            )
                                                        }
                                                    },
                                                }
                                            },
                                        }
                                    }
                                },
                            }
                        },
                    }
                }
            },
        },
    }
}

/// The middle fields of a review object, from `",\"backend_url\":"` on.
#[verifier::opaque]
pub open spec fn parse_review_mid(
    s: Seq<char>,
    i5: int,
    owner: Seq<char>,
    repo: Seq<char>,
    backend: crate::review::GitBackend,
) -> Option<(int, ReviewView)> {
    match parse_exact(s.skip(i5), ",\"backend_url\":"@) {
        None => None,
        Some(n6) => {
            let i6 = i5 + n6;
            match parse_opt_string(s.skip(i6)) {
                None => None,
                Some((n7, backend_url)) => {
                    let i7 = i6 + n7;
                    if !step_ok(s, i7) {
                        None
                    } else {
                        match parse_exact(s.skip(i7), ",\"pr_number\":"@) {
                            None => None,
                            Some(n8) => {
                                let i8 = i7 + n8;
                                match parse_u32(s.skip(i8)) {
                                    None => None,
                                    Some((n9, pr_number)) => {
                                        let i9 = i8 + n9;
                                        if !step_ok(s, i9) {
                                            None
                                        } else {
                                            match parse_exact(s.skip(i9), ",\"body\":"@) {
                                                None => None,
                                                Some(n10) => {
                                                    let i10 = i9 + n10;
                                                    match parse_string(s.skip(i10)) {
                                                        None => None,
                                                        Some((n11, body)) => {
                                                            let i11 = i10 + n11;
                                                            if !step_ok(s, i11) {
                                                                None
                                                            } else {
                                                                parse_review_tail(
                                                                    s,
                                                                    i11,
                                                                    owner,
                                                                    repo,
                                                                    backend,
                                                                    backend_url,
                                                                    pr_number,
                                                                    body,
                                                                )
                                                            }
                                                        },
                                                    }
                                                },
                                            }
                                        }
                                    },
                                }
                            },
                        }
                    }
                },
            }
        },
    }
}

/// The comment list and draft fields of a review object, from
/// `",\"comments\":"` on.
#[verifier::opaque]
pub open spec fn parse_review_tail(
    s: Seq<char>,
    i11: int,
    owner: Seq<char>,
    repo: Seq<char>,
    backend: crate::review::GitBackend,
    backend_url: Option<Seq<char>>,
    pr_number: u32,
    body: Seq<char>,
) -> Option<(int, ReviewView)> {
    match parse_exact(s.skip(i11), ",\"comments\":"@) {
        None => None,
        Some(n12) => {
            let i12 = i11 + n12;
            match parse_comments(s.skip(i12)) {
                None => None,
                Some((n13, comments)) => {
                    let i13 = i12 + n13;
                    if !step_ok(s, i13) {
                        None
                    } else {
                        match parse_exact(s.skip(i13), ",\"in_progress_comment\":"@) {
                            None => None,
                            Some(n14) => {
                                let i14 = i13 + n14;
                                match parse_opt_comment(s.skip(i14)) {
                                    None => None,
                                    Some((n15, draft)) => {
                                        let i15 = i14 + n15;
                                        if !step_ok(s, i15) {
                                            None
                                        } else {
                                            match parse_exact(s.skip(i15), seq!['}']) {
                                                None => None,
                                                Some(n16) => Some(
                                                    (
                                                        i15 + n16,
                                                        ReviewView {
                                                            owner: owner,
                                                            repo: repo,
                                                            backend: backend,
                                                            backend_url: backend_url,
                                                            pr_number: pr_number,
                                                            body: body,
                                                            comments: comments,
                                                            in_progress_comment: draft,
                                                        },
                                                    ),
                                                ),
                                            }
                                        }
                                    },
                                }
                            },
                        }
                    }
                },
            }
        },
    }
}

#[verifier::opaque]
pub open spec fn parse_config(s: Seq<char>) -> Option<(int, ConfigView)> {
    match parse_exact(s, "{\"owner\":"@) {
        None => None,
        Some(n0) => match parse_string(s.skip(n0)) {
            None => None,
            Some((n1, owner)) => {
                let i1 = n0 + n1;
                if !step_ok(s, i1) {
                    None
                } else {
                    match parse_exact(s.skip(i1), ",\"repo\":"@) {
                        None => None,
                        Some(n2) => {
                            let i2 = i1 + n2;
                            match parse_string(s.skip(i2)) {
                                None => None,
                                Some((n3, repo)) => {
                                    let i3 = i2 + n3;
                                    if !step_ok(s, i3) {
                                        None
                                    } else {
                                        match parse_exact(s.skip(i3), ",\"backend\":"@) {
                                            None => None,
                                            Some(n4) => {
                                                let i4 = i3 + n4;
                                                match parse_backend(s.skip(i4)) {
                                                    None => None,
                                                    Some((n5, backend)) => {
                                                        let i5 = i4 + n5;
                                                        if !step_ok(s, i5) {
                                                            None
                                                        } else {
                                                            parse_config_tail(
                                                                s,
                                                                i5,
                                                                owner,
                                                                repo,
                                                                backend,
                                                            )
                                                        }
                                                    },
                                                }
                                            },
                                        }
                                    }
                                },
                            }
                        },
                    }
                }
            },
        },
    }
}

/// The url and active-request fields of a configuration object, from
/// `",\"backend_url\":"` on.
#[verifier::opaque]
pub open spec fn parse_config_tail(
    s: Seq<char>,
    i5: int,
    owner: Seq<char>,
    repo: Seq<char>,
    backend: crate::review::GitBackend,
) -> Option<(int, ConfigView)> {
    match parse_exact(s.skip(i5), ",\"backend_url\":"@) {
        None => None,
        Some(n6) => {
            let i6 = i5 + n6;
            match parse_opt_string(s.skip(i6)) {
                None => None,
                Some((n7, backend_url)) => {
                    let i7 = i6 + n7;
                    if !step_ok(s, i7) {
                        None
                    } else {
                        match parse_exact(s.skip(i7), ",\"active_pr\":"@) {
                            None => None,
                            Some(n8) => {
                                let i8 = i7 + n8;
                                match parse_opt_u32(s.skip(i8)) {
                                    None => None,
                                    Some((n9, active_pr)) => {
                                        let i9 = i8 + n9;
                                        if !step_ok(s, i9) {
                                            None
                                        } else {
                                            match parse_exact(s.skip(i9), seq!['}']) {
                                                None => None,
                                                Some(n10) => Some(
                                                    (
                                                        i9 + n10,
                                                        ConfigView {
                                                            owner: owner,
                                                            repo: repo,
                                                            backend: backend,
                                                            backend_url: backend_url,
                                                            active_pr: active_pr,
                                                        },
                                                    ),
                                                ),
                                            }
                                        }
                                    },
                                }
                            },
                        }
                    }
                },
            }
        },
    }
}

// ---------------------------------------------------------------------------
// Round trips
// ---------------------------------------------------------------------------

proof fn lemma_assoc3(a: Seq<char>, b: Seq<char>, c: Seq<char>)
    ensures
        (a + b) + c == a + (b + c),
{
    assert((a + b) + c =~= a + (b + c));
}

proof fn lemma_skip_concat(a: Seq<char>, b: Seq<char>)
    ensures
        (a + b).skip(a.len() as int) == b,
{
    assert((a + b).skip(a.len() as int) =~= b);
}

proof fn lemma_skip_skip(s: Seq<char>, a: int, b: int)
    requires
        0 <= a,
        0 <= b,
        a + b <= s.len(),
    ensures
        s.skip(a).skip(b) == s.skip(a + b),
{
    assert(s.skip(a).skip(b) =~= s.skip(a + b));
}

#[verifier::rlimit(100)]
pub proof fn lemma_rt_comment(c: CommentView, rest: Seq<char>)
    ensures
        parse_comment(enc_comment(c) + rest) == Some((enc_comment(c).len() as int, c)),
{
    reveal(parse_comment);
    reveal(parse_comment_tail);
    let k1 = "{\"body\":"@;
    let k2 = ",\"line\":"@;
    let k3 = ",\"path\":"@;
    let k4 = ",\"side\":"@;
    let k5 = ",\"start_line\":"@;
    let k6 = ",\"start_side\":"@;
    let k7 = seq!['}'];
    let e1 = enc_string(c.body);
    let e2 = enc_u32(c.line);
    let e3 = enc_string(c.path);
    let e4 = enc_side(c.side);
    let e5 = enc_opt_u32(c.start_line);
    let e6 = enc_opt_side(c.start_side);
    let p2 = k1 + e1;
    let p3 = p2 + k2;
    let p4 = p3 + e2;
    let p5 = p4 + k3;
    let p6 = p5 + e3;
    let p7 = p6 + k4;
    let p8 = p7 + e4;
    let p9 = p8 + k5;
    let p10 = p9 + e5;
    let p11 = p10 + k6;
    let p12 = p11 + e6;
    let s = enc_comment(c) + rest;
    assert(enc_comment(c) == p12 + k7);
    let r7 = k7 + rest;
    let r6e = e6 + r7;
    let r6 = k6 + r6e;
    let r5e = e5 + r6;
    let r5 = k5 + r5e;
    let r4e = e4 + r5;
    let r4 = k4 + r4e;
    let r3e = e3 + r4;
    let r3 = k3 + r3e;
    let r2e = e2 + r3;
    let r2 = k2 + r2e;
    let r1e = e1 + r2;
    lemma_assoc3(p12, k7, rest);
    lemma_assoc3(p11, e6, r7);
    lemma_assoc3(p10, k6, r6e);
    lemma_assoc3(p9, e5, r6);
    lemma_assoc3(p8, k5, r5e);
    lemma_assoc3(p7, e4, r5);
    lemma_assoc3(p6, k4, r4e);
    lemma_assoc3(p5, e3, r4);
    lemma_assoc3(p4, k3, r3e);
    lemma_assoc3(p3, e2, r3);
    lemma_assoc3(p2, k2, r2e);
    lemma_assoc3(k1, e1, r2);
    assert(s == k1 + r1e);
    lemma_rt_exact(k1, r1e);
    let i0 = k1.len() as int;
    lemma_skip_concat(k1, r1e);
    assert(s.skip(i0) == r1e);
    lemma_rt_string(c.body, r2);
    let i1 = i0 + e1.len();
    lemma_skip_skip(s, i0, e1.len() as int);
    lemma_skip_concat(e1, r2);
    assert(s.skip(i1) == r2);
    lemma_rt_exact(k2, r2e);
    let i2 = i1 + k2.len();
    lemma_skip_skip(s, i1, k2.len() as int);
    lemma_skip_concat(k2, r2e);
    assert(s.skip(i2) == r2e);
    reveal_strlit(",\"path\":");
    assert(r3[0] == k3[0]);
    assert(!is_digit(r3[0]));
    lemma_parse_u32_of_rep(c.line, r3);
    let i3 = i2 + e2.len();
    lemma_skip_skip(s, i2, e2.len() as int);
    lemma_skip_concat(e2, r3);
    assert(s.skip(i3) == r3);
    lemma_rt_exact(k3, r3e);
    let i4 = i3 + k3.len();
    lemma_skip_skip(s, i3, k3.len() as int);
    lemma_skip_concat(k3, r3e);
    assert(s.skip(i4) == r3e);
    lemma_rt_string(c.path, r4);
    let i5 = i4 + e3.len();
    lemma_skip_skip(s, i4, e3.len() as int);
    lemma_skip_concat(e3, r4);
    assert(s.skip(i5) == r4);
    lemma_rt_exact(k4, r4e);
    let i6 = i5 + k4.len();
    lemma_skip_skip(s, i5, k4.len() as int);
    lemma_skip_concat(k4, r4e);
    assert(s.skip(i6) == r4e);
    lemma_rt_side(c.side, r5);
    let i7 = i6 + e4.len();
    lemma_skip_skip(s, i6, e4.len() as int);
    lemma_skip_concat(e4, r5);
    assert(s.skip(i7) == r5);
    lemma_rt_exact(k5, r5e);
    let i8 = i7 + k5.len();
    lemma_skip_skip(s, i7, k5.len() as int);
    lemma_skip_concat(k5, r5e);
    assert(s.skip(i8) == r5e);
    reveal_strlit(",\"start_side\":");
    assert(r6[0] == k6[0]);
    assert(r6.len() > 0 && !is_digit(r6[0]));
    lemma_rt_opt_u32(c.start_line, r6);
    let i9 = i8 + e5.len();
    lemma_skip_skip(s, i8, e5.len() as int);
    lemma_skip_concat(e5, r6);
    assert(s.skip(i9) == r6);
    lemma_rt_exact(k6, r6e);
    let i10 = i9 + k6.len();
    lemma_skip_skip(s, i9, k6.len() as int);
    lemma_skip_concat(k6, r6e);
    assert(s.skip(i10) == r6e);
    lemma_rt_opt_side(c.start_side, r7);
    let i11 = i10 + e6.len();
    lemma_skip_skip(s, i10, e6.len() as int);
    lemma_skip_concat(e6, r7);
    assert(s.skip(i11) == r7);
    lemma_rt_exact(k7, rest);
    assert(parse_exact(s, "{\"body\":"@) == Some(i0));
    assert(parse_string(s.skip(i0)) == Some((e1.len() as int, c.body)));
    assert(step_ok(s, i1));
    assert(parse_exact(s.skip(i1), ",\"line\":"@) == Some(k2.len() as int));
    assert(parse_u32(s.skip(i2)) == Some((e2.len() as int, c.line)));
    assert(step_ok(s, i3));
    assert(parse_exact(s.skip(i3), ",\"path\":"@) == Some(k3.len() as int));
    assert(parse_string(s.skip(i4)) == Some((e3.len() as int, c.path)));
    assert(step_ok(s, i5));
    assert(parse_exact(s.skip(i5), ",\"side\":"@) == Some(k4.len() as int));
    assert(parse_side(s.skip(i6)) == Some((e4.len() as int, c.side)));
    assert(step_ok(s, i7));
    assert(parse_exact(s.skip(i7), ",\"start_line\":"@) == Some(k5.len() as int));
    assert(parse_opt_u32(s.skip(i8)) == Some((e5.len() as int, c.start_line)));
    assert(step_ok(s, i9));
    assert(parse_exact(s.skip(i9), ",\"start_side\":"@) == Some(k6.len() as int));
    assert(parse_opt_side(s.skip(i10)) == Some((e6.len() as int, c.start_side)));
    assert(step_ok(s, i11));
    assert(parse_exact(s.skip(i11), seq!['}']) == Some(1int));
    assert((CommentView {
        body: c.body,
        line: c.line,
        path: c.path,
        side: c.side,
        start_line: c.start_line,
        start_side: c.start_side,
    }) =~= c);
    assert(parse_comment_tail(s, i5, c.body, c.line, c.path) == Some((i11 + 1, c)));
    assert(parse_comment(s) == Some((i11 + 1, c)));
    assert(enc_comment(c).len() == i11 + 1);
}

pub proof fn lemma_rt_opt_comment(o: Option<CommentView>, rest: Seq<char>)
    ensures
        parse_opt_comment(enc_opt_comment(o) + rest) == Some(
            (enc_opt_comment(o).len() as int, o),
        ),
{
    match o {
        None => {
            lemma_rt_exact(null_seq(), rest);
        },
        Some(c) => {
            let s = enc_comment(c) + rest;
            if parse_exact(s, null_seq()) is Some {
                reveal_strlit("{\"body\":");
                assert(s.take(null_seq().len() as int)[0] == s[0]);
                assert(s[0] == enc_comment(c)[0]);
                assert(enc_comment(c)[0] == "{\"body\":"@[0]);
                assert(false);
            }
            lemma_rt_comment(c, rest);
        },
    }
}

#[verifier::rlimit(50)]
proof fn lemma_rt_comments_rest(cs: Seq<CommentView>, rest: Seq<char>)
    ensures
        parse_comments_rest(enc_comments_rest(cs) + rest) == Some(
            (enc_comments_rest(cs).len() as int, cs),
        ),
    decreases cs.len(),
{
    reveal(parse_comments_rest);
    let u = enc_comments_rest(cs) + rest;
    if cs.len() == 0 {
        assert(enc_comments_rest(cs) =~= seq![']']);
        assert(u[0] == ']');
        assert(Seq::<CommentView>::empty() =~= cs);
    } else {
        let c0 = cs[0];
        let cs2 = cs.drop_first();
        lemma_rt_comments_rest(cs2, rest);
        let comma = seq![','];
        let encc = enc_comment(c0);
        let rest2 = enc_comments_rest(cs2);
        let tail = rest2 + rest;
        assert(enc_comments_rest(cs) == (comma + encc) + rest2);
        lemma_assoc3(comma + encc, rest2, rest);
        lemma_assoc3(comma, encc, tail);
        assert(u == comma + (encc + tail));
        assert(u[0] == ',');
        lemma_skip_concat(comma, encc + tail);
        assert(u.skip(1) == encc + tail);
        lemma_rt_comment(c0, tail);
        let n = encc.len() as int;
        lemma_skip_concat(encc, tail);
        lemma_skip_skip(u, 1, n);
        assert(u.skip(1 + n) == tail);
        assert(seq![c0] + cs2 =~= cs);
        assert(u[0] != ']');
        assert(parse_comment(u.skip(1)) == Some((n, c0)));
        assert(0 <= n && 1 + n <= u.len());
        assert(parse_comments_rest(u.skip(1 + n)) == Some((rest2.len() as int, cs2)));
        assert(parse_comments_rest(u) == Some((1 + n + rest2.len(), cs)));
        assert(enc_comments_rest(cs).len() == 1 + n + rest2.len());
    }
}

#[verifier::rlimit(50)]
pub proof fn lemma_rt_comments(cs: Seq<CommentView>, rest: Seq<char>)
    ensures
        parse_comments(enc_comments(cs) + rest) == Some((enc_comments(cs).len() as int, cs)),
{
    reveal(parse_comments);
    let s = enc_comments(cs) + rest;
    if cs.len() == 0 {
        assert(enc_comments(cs) =~= seq!['[', ']']);
        assert(s[0] == '[');
        assert(s.skip(1)[0] == ']');
        assert(Seq::<CommentView>::empty() =~= cs);
    } else {
        let c0 = cs[0];
        let cs2 = cs.drop_first();
        let lb = seq!['['];
        let encc = enc_comment(c0);
        let rest2 = enc_comments_rest(cs2);
        let tail = rest2 + rest;
        assert(enc_comments(cs) == (lb + encc) + rest2);
        lemma_assoc3(lb + encc, rest2, rest);
        lemma_assoc3(lb, encc, tail);
        assert(s == lb + (encc + tail));
        assert(s[0] == '[');
        lemma_skip_concat(lb, encc + tail);
        let t = s.skip(1);
        assert(t == encc + tail);
        reveal_strlit("{\"body\":");
        assert(encc[0] == "{\"body\":"@[0]);
        assert(t[0] != ']');
        lemma_rt_comment(c0, tail);
        let n = encc.len() as int;
        lemma_skip_concat(encc, tail);
        assert(t.skip(n) == tail);
        lemma_rt_comments_rest(cs2, rest);
        assert(seq![c0] + cs2 =~= cs);
        assert(parse_comment(t) == Some((n, c0)));
        assert(0 <= n && n <= t.len());
        assert(parse_comments_rest(t.skip(n)) == Some((rest2.len() as int, cs2)));
        assert(parse_comments(s) == Some((1 + n + rest2.len(), cs)));
        assert(enc_comments(cs).len() == 1 + n + rest2.len());
    }
}

#[verifier::rlimit(100)]
pub proof fn lemma_rt_review(rv: ReviewView, rest: Seq<char>)
    ensures
        parse_review(enc_review(rv) + rest) == Some((enc_review(rv).len() as int, rv)),
{
    let k1 = "{\"owner\":"@;
    let k2 = ",\"repo\":"@;
    let k3 = ",\"backend\":"@;
    let k4 = ",\"backend_url\":"@;
    let k5 = ",\"pr_number\":"@;
    let k6 = ",\"body\":"@;
    let k7 = ",\"comments\":"@;
    let k8 = ",\"in_progress_comment\":"@;
    let k9 = seq!['}'];
    let e1 = enc_string(rv.owner);
    let e2 = enc_string(rv.repo);
    let e3 = enc_backend(rv.backend);
    let e4 = enc_opt_string(rv.backend_url);
    let e5 = enc_u32(rv.pr_number);
    let e6 = enc_string(rv.body);
    let e7 = enc_comments(rv.comments);
    let e8 = enc_opt_comment(rv.in_progress_comment);
    let p2 = k1 + e1;
    let p3 = p2 + k2;
    let p4 = p3 + e2;
    let p5 = p4 + k3;
    let p6 = p5 + e3;
    let p7 = p6 + k4;
    let p8 = p7 + e4;
    let p9 = p8 + k5;
    let p10 = p9 + e5;
    let p11 = p10 + k6;
    let p12 = p11 + e6;
    let p13 = p12 + k7;
    let p14 = p13 + e7;
    let p15 = p14 + k8;
    let p16 = p15 + e8;
    let s = enc_review(rv) + rest;
    assert(enc_review(rv) == p16 + k9);
    let r9 = k9 + rest;
    let r8e = e8 + r9;
    let r8 = k8 + r8e;
    let r7e = e7 + r8;
    let r7 = k7 + r7e;
    let r6e = e6 + r7;
    let r6 = k6 + r6e;
    let r5e = e5 + r6;
    let r5 = k5 + r5e;
    let r4e = e4 + r5;
    let r4 = k4 + r4e;
    let r3e = e3 + r4;
    let r3 = k3 + r3e;
    let r2e = e2 + r3;
    let r2 = k2 + r2e;
    let r1e = e1 + r2;
    lemma_assoc3(p16, k9, rest);
    lemma_assoc3(p15, e8, r9);
    lemma_assoc3(p14, k8, r8e);
    lemma_assoc3(p13, e7, r8);
    lemma_assoc3(p12, k7, r7e);
    lemma_assoc3(p11, e6, r7);
    lemma_assoc3(p10, k6, r6e);
    lemma_assoc3(p9, e5, r6);
    lemma_assoc3(p8, k5, r5e);
    lemma_assoc3(p7, e4, r5);
    lemma_assoc3(p6, k4, r4e);
    lemma_assoc3(p5, e3, r4);
    lemma_assoc3(p4, k3, r3e);
    lemma_assoc3(p3, e2, r3);
    lemma_assoc3(p2, k2, r2e);
    lemma_assoc3(k1, e1, r2);
    assert(s == k1 + r1e);
    lemma_rt_exact(k1, r1e);
    let i0 = k1.len() as int;
    lemma_skip_concat(k1, r1e);
    assert(s.skip(i0) == r1e);
    lemma_rt_string(rv.owner, r2);
    let i1 = i0 + e1.len();
    lemma_skip_skip(s, i0, e1.len() as int);
    lemma_skip_concat(e1, r2);
    assert(s.skip(i1) == r2);
    lemma_rt_exact(k2, r2e);
    let i2 = i1 + k2.len();
    lemma_skip_skip(s, i1, k2.len() as int);
    lemma_skip_concat(k2, r2e);
    assert(s.skip(i2) == r2e);
    lemma_rt_string(rv.repo, r3);
    let i3 = i2 + e2.len();
    lemma_skip_skip(s, i2, e2.len() as int);
    lemma_skip_concat(e2, r3);
    assert(s.skip(i3) == r3);
    lemma_rt_exact(k3, r3e);
    let i4 = i3 + k3.len();
    lemma_skip_skip(s, i3, k3.len() as int);
    lemma_skip_concat(k3, r3e);
    assert(s.skip(i4) == r3e);
    lemma_rt_backend(rv.backend, r4);
    let i5 = i4 + e3.len();
    lemma_skip_skip(s, i4, e3.len() as int);
    lemma_skip_concat(e3, r4);
    assert(s.skip(i5) == r4);
    lemma_rt_exact(k4, r4e);
    let i6 = i5 + k4.len();
    lemma_skip_skip(s, i5, k4.len() as int);
    lemma_skip_concat(k4, r4e);
    assert(s.skip(i6) == r4e);
    lemma_rt_opt_string(rv.backend_url, r5);
    let i7 = i6 + e4.len();
    lemma_skip_skip(s, i6, e4.len() as int);
    lemma_skip_concat(e4, r5);
    assert(s.skip(i7) == r5);
    lemma_rt_exact(k5, r5e);
    let i8 = i7 + k5.len();
    lemma_skip_skip(s, i7, k5.len() as int);
    lemma_skip_concat(k5, r5e);
    assert(s.skip(i8) == r5e);
    reveal_strlit(",\"body\":");
    assert(r6[0] == k6[0]);
    assert(!is_digit(r6[0]));
    lemma_parse_u32_of_rep(rv.pr_number, r6);
    let i9 = i8 + e5.len();
    lemma_skip_skip(s, i8, e5.len() as int);
    lemma_skip_concat(e5, r6);
    assert(s.skip(i9) == r6);
    lemma_rt_exact(k6, r6e);
    let i10 = i9 + k6.len();
    lemma_skip_skip(s, i9, k6.len() as int);
    lemma_skip_concat(k6, r6e);
    assert(s.skip(i10) == r6e);
    lemma_rt_string(rv.body, r7);
    let i11 = i10 + e6.len();
    lemma_skip_skip(s, i10, e6.len() as int);
    lemma_skip_concat(e6, r7);
    assert(s.skip(i11) == r7);
    lemma_rt_exact(k7, r7e);
    let i12 = i11 + k7.len();
    lemma_skip_skip(s, i11, k7.len() as int);
    lemma_skip_concat(k7, r7e);
    assert(s.skip(i12) == r7e);
    lemma_rt_comments(rv.comments, r8);
    let i13 = i12 + e7.len();
    lemma_skip_skip(s, i12, e7.len() as int);
    lemma_skip_concat(e7, r8);
    assert(s.skip(i13) == r8);
    lemma_rt_exact(k8, r8e);
    let i14 = i13 + k8.len();
    lemma_skip_skip(s, i13, k8.len() as int);
    lemma_skip_concat(k8, r8e);
    assert(s.skip(i14) == r8e);
    lemma_rt_opt_comment(rv.in_progress_comment, r9);
    let i15 = i14 + e8.len();
    lemma_skip_skip(s, i14, e8.len() as int);
    lemma_skip_concat(e8, r9);
    assert(s.skip(i15) == r9);
    lemma_rt_exact(k9, rest);
    assert(parse_exact(s, "{\"owner\":"@) == Some(i0));
    assert(parse_string(s.skip(i0)) == Some((e1.len() as int, rv.owner)));
    assert(step_ok(s, i1));
    assert(parse_exact(s.skip(i1), ",\"repo\":"@) == Some(k2.len() as int));
    assert(parse_string(s.skip(i2)) == Some((e2.len() as int, rv.repo)));
    assert(step_ok(s, i3));
    assert(parse_exact(s.skip(i3), ",\"backend\":"@) == Some(k3.len() as int));
    assert(parse_backend(s.skip(i4)) == Some((e3.len() as int, rv.backend)));
    assert(step_ok(s, i5));
    assert(parse_exact(s.skip(i5), ",\"backend_url\":"@) == Some(k4.len() as int));
    assert(parse_opt_string(s.skip(i6)) == Some((e4.len() as int, rv.backend_url)));
    assert(step_ok(s, i7));
    assert(parse_exact(s.skip(i7), ",\"pr_number\":"@) == Some(k5.len() as int));
    assert(parse_u32(s.skip(i8)) == Some((e5.len() as int, rv.pr_number)));
    assert(step_ok(s, i9));
    assert(parse_exact(s.skip(i9), ",\"body\":"@) == Some(k6.len() as int));
    assert(parse_string(s.skip(i10)) == Some((e6.len() as int, rv.body)));
    assert(step_ok(s, i11));
    assert(parse_exact(s.skip(i11), ",\"comments\":"@) == Some(k7.len() as int));
    assert(parse_comments(s.skip(i12)) == Some((e7.len() as int, rv.comments)));
    assert(step_ok(s, i13));
    assert(parse_exact(s.skip(i13), ",\"in_progress_comment\":"@) == Some(k8.len() as int));
    assert(parse_opt_comment(s.skip(i14)) == Some((e8.len() as int, rv.in_progress_comment)));
    assert(step_ok(s, i15));
    assert(parse_exact(s.skip(i15), seq!['}']) == Some(1int));
    assert((ReviewView {
        owner: rv.owner,
        repo: rv.repo,
        backend: rv.backend,
        backend_url: rv.backend_url,
        pr_number: rv.pr_number,
        body: rv.body,
        comments: rv.comments,
        in_progress_comment: rv.in_progress_comment,
    }) =~= rv);
    assert(parse_review_tail(s, i11, rv.owner, rv.repo, rv.backend, rv.backend_url, rv.pr_number, rv.body) == Some((i15 + 1, rv))) by {
        reveal(parse_review_tail);
    }
    assert(parse_review_mid(s, i5, rv.owner, rv.repo, rv.backend) == Some((i15 + 1, rv))) by {
        reveal(parse_review_mid);
    }
    assert(parse_review(s) == Some((i15 + 1, rv))) by {
        reveal(parse_review);
    }
    assert(enc_review(rv).len() == i15 + 1);
}

#[verifier::rlimit(100)]
pub proof fn lemma_rt_config(cv: ConfigView, rest: Seq<char>)
    ensures
        parse_config(enc_config(cv) + rest) == Some((enc_config(cv).len() as int, cv)),
{
    reveal(parse_config);
    reveal(parse_config_tail);
    let k1 = "{\"owner\":"@;
    let k2 = ",\"repo\":"@;
    let k3 = ",\"backend\":"@;
    let k4 = ",\"backend_url\":"@;
    let k5 = ",\"active_pr\":"@;
    let k6 = seq!['}'];
    let e1 = enc_string(cv.owner);
    let e2 = enc_string(cv.repo);
    let e3 = enc_backend(cv.backend);
    let e4 = enc_opt_string(cv.backend_url);
    let e5 = enc_opt_u32(cv.active_pr);
    let p2 = k1 + e1;
    let p3 = p2 + k2;
    let p4 = p3 + e2;
    let p5 = p4 + k3;
    let p6 = p5 + e3;
    let p7 = p6 + k4;
    let p8 = p7 + e4;
    let p9 = p8 + k5;
    let p10 = p9 + e5;
    let s = enc_config(cv) + rest;
    assert(enc_config(cv) == p10 + k6);
    let r6 = k6 + rest;
    let r5e = e5 + r6;
    let r5 = k5 + r5e;
    let r4e = e4 + r5;
    let r4 = k4 + r4e;
    let r3e = e3 + r4;
    let r3 = k3 + r3e;
    let r2e = e2 + r3;
    let r2 = k2 + r2e;
    let r1e = e1 + r2;
    lemma_assoc3(p10, k6, rest);
    lemma_assoc3(p9, e5, r6);
    lemma_assoc3(p8, k5, r5e);
    lemma_assoc3(p7, e4, r5);
    lemma_assoc3(p6, k4, r4e);
    lemma_assoc3(p5, e3, r4);
    lemma_assoc3(p4, k3, r3e);
    lemma_assoc3(p3, e2, r3);
    lemma_assoc3(p2, k2, r2e);
    lemma_assoc3(k1, e1, r2);
    assert(s == k1 + r1e);
    lemma_rt_exact(k1, r1e);
    let i0 = k1.len() as int;
    lemma_skip_concat(k1, r1e);
    assert(s.skip(i0) == r1e);
    lemma_rt_string(cv.owner, r2);
    let i1 = i0 + e1.len();
    lemma_skip_skip(s, i0, e1.len() as int);
    lemma_skip_concat(e1, r2);
    assert(s.skip(i1) == r2);
    lemma_rt_exact(k2, r2e);
    let i2 = i1 + k2.len();
    lemma_skip_skip(s, i1, k2.len() as int);
    lemma_skip_concat(k2, r2e);
    assert(s.skip(i2) == r2e);
    lemma_rt_string(cv.repo, r3);
    let i3 = i2 + e2.len();
    lemma_skip_skip(s, i2, e2.len() as int);
    lemma_skip_concat(e2, r3);
    assert(s.skip(i3) == r3);
    lemma_rt_exact(k3, r3e);
    let i4 = i3 + k3.len();
    lemma_skip_skip(s, i3, k3.len() as int);
    lemma_skip_concat(k3, r3e);
    assert(s.skip(i4) == r3e);
    lemma_rt_backend(cv.backend, r4);
    let i5 = i4 + e3.len();
    lemma_skip_skip(s, i4, e3.len() as int);
    lemma_skip_concat(e3, r4);
    assert(s.skip(i5) == r4);
    lemma_rt_exact(k4, r4e);
    let i6 = i5 + k4.len();
    lemma_skip_skip(s, i5, k4.len() as int);
    lemma_skip_concat(k4, r4e);
    assert(s.skip(i6) == r4e);
    lemma_rt_opt_string(cv.backend_url, r5);
    let i7 = i6 + e4.len();
    lemma_skip_skip(s, i6, e4.len() as int);
    lemma_skip_concat(e4, r5);
    assert(s.skip(i7) == r5);
    lemma_rt_exact(k5, r5e);
    let i8 = i7 + k5.len();
    lemma_skip_skip(s, i7, k5.len() as int);
    lemma_skip_concat(k5, r5e);
    assert(s.skip(i8) == r5e);
    assert(r6[0] == '}');
    assert(!is_digit(r6[0]));
    lemma_rt_opt_u32(cv.active_pr, r6);
    let i9 = i8 + e5.len();
    lemma_skip_skip(s, i8, e5.len() as int);
    lemma_skip_concat(e5, r6);
    assert(s.skip(i9) == r6);
    lemma_rt_exact(k6, rest);
    assert(parse_exact(s, "{\"owner\":"@) == Some(i0));
    assert(parse_string(s.skip(i0)) == Some((e1.len() as int, cv.owner)));
    assert(step_ok(s, i1));
    assert(parse_exact(s.skip(i1), ",\"repo\":"@) == Some(k2.len() as int));
    assert(parse_string(s.skip(i2)) == Some((e2.len() as int, cv.repo)));
    assert(step_ok(s, i3));
    assert(parse_exact(s.skip(i3), ",\"backend\":"@) == Some(k3.len() as int));
    assert(parse_backend(s.skip(i4)) == Some((e3.len() as int, cv.backend)));
    assert(step_ok(s, i5));
    assert(parse_exact(s.skip(i5), ",\"backend_url\":"@) == Some(k4.len() as int));
    assert(parse_opt_string(s.skip(i6)) == Some((e4.len() as int, cv.backend_url)));
    assert(step_ok(s, i7));
    assert(parse_exact(s.skip(i7), ",\"active_pr\":"@) == Some(k5.len() as int));
    assert(parse_opt_u32(s.skip(i8)) == Some((e5.len() as int, cv.active_pr)));
    assert(step_ok(s, i9));
    assert(parse_exact(s.skip(i9), seq!['}']) == Some(1int));
    assert((ConfigView {
        owner: cv.owner,
        repo: cv.repo,
        backend: cv.backend,
        backend_url: cv.backend_url,
        active_pr: cv.active_pr,
    }) =~= cv);
    assert(parse_config_tail(s, i5, cv.owner, cv.repo, cv.backend) == Some((i9 + 1, cv)));
    assert(parse_config(s) == Some((i9 + 1, cv)));
    assert(enc_config(cv).len() == i9 + 1);
}

/// Law: a review document survives the round trip through its persisted
/// form: parsing the encoding of any review value gives that value back.
pub proof fn lemma_review_round_trip(rv: ReviewView)
    ensures
        parse_review_doc(enc_review(rv)) == Some(rv),
{
    lemma_rt_review(rv, Seq::empty());
    assert(enc_review(rv) + Seq::<char>::empty() =~= enc_review(rv));
}

/// Law: a configuration document survives the round trip through its
/// persisted form.
pub proof fn lemma_config_round_trip(cv: ConfigView)
    ensures
        parse_config_doc(enc_config(cv)) == Some(cv),
{
    lemma_rt_config(cv, Seq::empty());
    assert(enc_config(cv) + Seq::<char>::empty() =~= enc_config(cv));
}

/// A whole persisted review document: a review object and nothing after it.
pub open spec fn parse_review_doc(s: Seq<char>) -> Option<ReviewView> {
    match parse_review(s) {
        None => None,
        Some((n, rv)) => if n == s.len() {
            Some(rv)
        } else {
            None
        },
    }
}

/// A whole persisted configuration document: a configuration object and
/// nothing after it.
pub open spec fn parse_config_doc(s: Seq<char>) -> Option<ConfigView> {
    match parse_config(s) {
        None => None,
        Some((n, cv)) => if n == s.len() {
            Some(cv)
        } else {
            None
        },
    }
}


// ---------------------------------------------------------------------------
// Executable encoders
// ---------------------------------------------------------------------------

/// Appends the canonical encoding of one comment to `out`.
pub fn append_comment(out: &mut String, c: &Comment)
    ensures
        final(out)@ == old(out)@ + enc_comment(c@),
{
    let ghost o = out@;
    let ghost k1 = "{\"body\":"@;
    let ghost k2 = ",\"line\":"@;
    let ghost k3 = ",\"path\":"@;
    let ghost k4 = ",\"side\":"@;
    let ghost k5 = ",\"start_line\":"@;
    let ghost k6 = ",\"start_side\":"@;
    let ghost e1 = enc_string(c@.body);
    let ghost e2 = enc_u32(c@.line);
    let ghost e3 = enc_string(c@.path);
    let ghost e4 = enc_side(c@.side);
    let ghost e5 = enc_opt_u32(c@.start_line);
    let ghost e6 = enc_opt_side(c@.start_side);
    out.append("{\"body\":");
    append_json_string(out, c.body.as_str());
    proof {
        lemma_assoc3(o, k1, e1);
    }
    out.append(",\"line\":");
    proof {
        lemma_assoc3(o, k1 + e1, k2);
    }
    crate::text::append_dec_u32(out, c.line);
    proof {
        lemma_assoc3(o, (k1 + e1) + k2, e2);
    }
    out.append(",\"path\":");
    proof {
        lemma_assoc3(o, ((k1 + e1) + k2) + e2, k3);
    }
    append_json_string(out, c.path.as_str());
    proof {
        lemma_assoc3(o, (((k1 + e1) + k2) + e2) + k3, e3);
    }
    out.append(",\"side\":");
    proof {
        lemma_assoc3(o, ((((k1 + e1) + k2) + e2) + k3) + e3, k4);
    }
    append_side(out, c.side);
    proof {
        lemma_assoc3(o, (((((k1 + e1) + k2) + e2) + k3) + e3) + k4, e4);
    }
    out.append(",\"start_line\":");
    proof {
        lemma_assoc3(o, ((((((k1 + e1) + k2) + e2) + k3) + e3) + k4) + e4, k5);
    }
    append_opt_u32(out, &c.start_line);
    proof {
        lemma_assoc3(o, (((((((k1 + e1) + k2) + e2) + k3) + e3) + k4) + e4) + k5, e5);
    }
    out.append(",\"start_side\":");
    proof {
        lemma_assoc3(o, ((((((((k1 + e1) + k2) + e2) + k3) + e3) + k4) + e4) + k5) + e5, k6);
    }
    append_opt_side(out, &c.start_side);
    proof {
        lemma_assoc3(o, (((((((((k1 + e1) + k2) + e2) + k3) + e3) + k4) + e4) + k5) + e5) + k6, e6);
    }
    push_char(out, '}');
    proof {
        let p12 = ((((((((((k1 + e1) + k2) + e2) + k3) + e3) + k4) + e4) + k5) + e5) + k6) + e6;
        assert(out@ =~= (o + p12) + seq!['}']);
        lemma_assoc3(o, p12, seq!['}']);
        assert(enc_comment(c@) == p12 + seq!['}']);
    }
}

pub fn append_opt_comment(out: &mut String, o: &Option<Comment>)
    ensures
        final(out)@ == old(out)@ + enc_opt_comment(crate::review::opt_comment_view(*o)),
{
    match o {
        None => crate::json::append_null(out),
        Some(c) => append_comment(out, c),
    }
}

/// Appends the canonical encoding of a comment list to `out`.
pub fn append_comments(out: &mut String, cs: &Vec<Comment>)
    ensures
        final(out)@ == old(out)@ + enc_comments(comments_view(cs@)),
{
    let ghost o = out@;
    let ghost csv = comments_view(cs@);
    push_char(out, '[');
    if cs.len() == 0 {
        push_char(out, ']');
        proof {
            assert(csv.len() == 0);
            assert(enc_comments(csv) =~= seq!['[', ']']);
            assert(out@ =~= o + enc_comments(csv));
        }
        return ;
    }
    proof {
        assert(csv[0] == cs@[0]@);
    }
    append_comment(out, &cs[0]);
    let ghost lb = seq!['['];
    let ghost e0 = enc_comment(csv[0]);
    proof {
        assert(csv.skip(1) =~= csv.drop_first());
        assert(enc_comments(csv) == (lb + e0) + enc_comments_rest(csv.skip(1)));
        assert(out@ =~= (o + lb) + e0);
        lemma_assoc3(o, lb, e0);
        lemma_assoc3(o, lb + e0, enc_comments_rest(csv.skip(1)));
        assert(out@ + enc_comments_rest(csv.skip(1)) == o + enc_comments(csv));
    }
    let mut i: usize = 1;
    while i < cs.len()
        invariant
            1 <= i <= cs.len(),
            csv == comments_view(cs@),
            csv.len() == cs@.len(),
            out@ + enc_comments_rest(csv.skip(i as int)) == o + enc_comments(csv),
        decreases cs.len() - i,
    {
        let ghost pre = out@;
        push_char(out, ',');
        proof {
            assert(csv[i as int] == cs@[i as int]@);
        }
        append_comment(out, &cs[i]);
        proof {
            let comma = seq![','];
            let ei = enc_comment(csv[i as int]);
            let rnext = enc_comments_rest(csv.skip(i + 1 as int));
            assert(csv.skip(i as int)[0] == csv[i as int]);
            assert(csv.skip(i as int).drop_first() =~= csv.skip(i + 1 as int));
            assert(enc_comments_rest(csv.skip(i as int)) == (comma + ei) + rnext);
            assert(out@ =~= (pre + comma) + ei);
            lemma_assoc3(pre, comma, ei);
            lemma_assoc3(pre, comma + ei, rnext);
            assert(out@ + rnext == pre + enc_comments_rest(csv.skip(i as int)));
        }
        i = i + 1;
    }
    proof {
        assert(csv.skip(csv.len() as int) =~= Seq::<CommentView>::empty());
        assert(enc_comments_rest(csv.skip(csv.len() as int)) =~= seq![']']);
    }
    push_char(out, ']');
    proof {
        assert(out@ =~= o + enc_comments(csv));
    }
}

impl Review {
    /// The canonical persisted form of this review; also the payload of a
    /// GitHub review publication.
    pub fn to_json(&self) -> (r: String)
        ensures
            r@ == enc_review(self@),
    {
        let ghost k1 = "{\"owner\":"@;
        let ghost k2 = ",\"repo\":"@;
        let ghost k3 = ",\"backend\":"@;
        let ghost k4 = ",\"backend_url\":"@;
        let ghost k5 = ",\"pr_number\":"@;
        let ghost k6 = ",\"body\":"@;
        let ghost k7 = ",\"comments\":"@;
        let ghost k8 = ",\"in_progress_comment\":"@;
        let ghost e1 = enc_string(self@.owner);
        let ghost e2 = enc_string(self@.repo);
        let ghost e3 = enc_backend(self@.backend);
        let ghost e4 = enc_opt_string(self@.backend_url);
        let ghost e5 = enc_u32(self@.pr_number);
        let ghost e6 = enc_string(self@.body);
        let ghost e7 = enc_comments(self@.comments);
        let ghost e8 = enc_opt_comment(self@.in_progress_comment);
        let mut out = String::new();
        let ghost o = out@;
        out.append("{\"owner\":");
        append_json_string(&mut out, self.owner.as_str());
        proof {
            lemma_assoc3(o, k1, e1);
        }
        out.append(",\"repo\":");
        proof {
            lemma_assoc3(o, k1 + e1, k2);
        }
        append_json_string(&mut out, self.repo.as_str());
        proof {
            lemma_assoc3(o, (k1 + e1) + k2, e2);
        }
        out.append(",\"backend\":");
        proof {
            lemma_assoc3(o, ((k1 + e1) + k2) + e2, k3);
        }
        crate::json::append_backend(&mut out, self.backend);
        proof {
            lemma_assoc3(o, (((k1 + e1) + k2) + e2) + k3, e3);
        }
        out.append(",\"backend_url\":");
        proof {
            lemma_assoc3(o, ((((k1 + e1) + k2) + e2) + k3) + e3, k4);
        }
        crate::json::append_opt_string(&mut out, &self.backend_url);
        proof {
            lemma_assoc3(o, (((((k1 + e1) + k2) + e2) + k3) + e3) + k4, e4);
        }
        out.append(",\"pr_number\":");
        proof {
            lemma_assoc3(o, ((((((k1 + e1) + k2) + e2) + k3) + e3) + k4) + e4, k5);
        }
        crate::text::append_dec_u32(&mut out, self.pr_number);
        proof {
            lemma_assoc3(o, (((((((k1 + e1) + k2) + e2) + k3) + e3) + k4) + e4) + k5, e5);
        }
        out.append(",\"body\":");
        proof {
            lemma_assoc3(o, ((((((((k1 + e1) + k2) + e2) + k3) + e3) + k4) + e4) + k5) + e5, k6);
        }
        append_json_string(&mut out, self.body.as_str());
        proof {
            lemma_assoc3(
                o,
                (((((((((k1 + e1) + k2) + e2) + k3) + e3) + k4) + e4) + k5) + e5) + k6,
                e6,
            );
        }
        out.append(",\"comments\":");
        proof {
            lemma_assoc3(
                o,
                ((((((((((k1 + e1) + k2) + e2) + k3) + e3) + k4) + e4) + k5) + e5) + k6) + e6,
                k7,
            );
        }
        append_comments(&mut out, &self.comments);
        proof {
            lemma_assoc3(
                o,
                (((((((((((k1 + e1) + k2) + e2) + k3) + e3) + k4) + e4) + k5) + e5) + k6) + e6)
                    + k7,
                e7,
            );
        }
        out.append(",\"in_progress_comment\":");
        proof {
            lemma_assoc3(
                o,
                ((((((((((((k1 + e1) + k2) + e2) + k3) + e3) + k4) + e4) + k5) + e5) + k6) + e6)
                    + k7) + e7,
                k8,
            );
        }
        append_opt_comment(&mut out, &self.in_progress_comment);
        proof {
            lemma_assoc3(
                o,
                (((((((((((((k1 + e1) + k2) + e2) + k3) + e3) + k4) + e4) + k5) + e5) + k6) + e6)
                    + k7) + e7) + k8,
                e8,
            );
        }
        push_char(&mut out, '}');
        proof {
            let p16 = ((((((((((((((k1 + e1) + k2) + e2) + k3) + e3) + k4) + e4) + k5) + e5) + k6)
                + e6) + k7) + e7) + k8) + e8;
            assert(out@ =~= (o + p16) + seq!['}']);
            lemma_assoc3(o, p16, seq!['}']);
            assert(enc_review(self@) == p16 + seq!['}']);
            assert(o =~= Seq::<char>::empty());
            assert(o + (p16 + seq!['}']) =~= p16 + seq!['}']);
        }
        out
    }
}

impl Config {
    /// The canonical persisted form of this configuration record.
    pub fn to_json(&self) -> (r: String)
        ensures
            r@ == enc_config(self@),
    {
        let ghost k1 = "{\"owner\":"@;
        let ghost k2 = ",\"repo\":"@;
        let ghost k3 = ",\"backend\":"@;
        let ghost k4 = ",\"backend_url\":"@;
        let ghost k5 = ",\"active_pr\":"@;
        let ghost e1 = enc_string(self@.owner);
        let ghost e2 = enc_string(self@.repo);
        let ghost e3 = enc_backend(self@.backend);
        let ghost e4 = enc_opt_string(self@.backend_url);
        let ghost e5 = enc_opt_u32(self@.active_pr);
        let mut out = String::new();
        let ghost o = out@;
        out.append("{\"owner\":");
        append_json_string(&mut out, self.owner.as_str());
        proof {
            lemma_assoc3(o, k1, e1);
        }
        out.append(",\"repo\":");
        proof {
            lemma_assoc3(o, k1 + e1, k2);
        }
        append_json_string(&mut out, self.repo.as_str());
        proof {
            lemma_assoc3(o, (k1 + e1) + k2, e2);
        }
        out.append(",\"backend\":");
        proof {
            lemma_assoc3(o, ((k1 + e1) + k2) + e2, k3);
        }
        crate::json::append_backend(&mut out, self.backend);
        proof {
            lemma_assoc3(o, (((k1 + e1) + k2) + e2) + k3, e3);
        }
        out.append(",\"backend_url\":");
        proof {
            lemma_assoc3(o, ((((k1 + e1) + k2) + e2) + k3) + e3, k4);
        }
        crate::json::append_opt_string(&mut out, &self.backend_url);
        proof {
            lemma_assoc3(o, (((((k1 + e1) + k2) + e2) + k3) + e3) + k4, e4);
        }
        out.append(",\"active_pr\":");
        proof {
            lemma_assoc3(o, ((((((k1 + e1) + k2) + e2) + k3) + e3) + k4) + e4, k5);
        }
        crate::json::append_opt_u32(&mut out, &self.active_pr);
        proof {
            lemma_assoc3(o, (((((((k1 + e1) + k2) + e2) + k3) + e3) + k4) + e4) + k5, e5);
        }
        push_char(&mut out, '}');
        proof {
            let p10 = ((((((((k1 + e1) + k2) + e2) + k3) + e3) + k4) + e4) + k5) + e5;
            assert(out@ =~= (o + p10) + seq!['}']);
            lemma_assoc3(o, p10, seq!['}']);
            assert(enc_config(self@) == p10 + seq!['}']);
            assert(o =~= Seq::<char>::empty());
            assert(o + (p10 + seq!['}']) =~= p10 + seq!['}']);
        }
        out
    }
}


// ---------------------------------------------------------------------------
// Executable parsers
// ---------------------------------------------------------------------------

/// Composition of a comment-list step: `k` characters already consumed and
/// `pre` already parsed, followed by the outcome `r` of the remaining tail.
pub open spec fn list_step(
    r: Option<(int, Seq<CommentView>)>,
    k: int,
    pre: Seq<CommentView>,
) -> Option<(int, Seq<CommentView>)> {
    match r {
        None => None,
        Some((m, cs)) => Some((m + k, pre + cs)),
    }
}

/// Consumes one comment object at character index `i` of `s`.
#[verifier::rlimit(100)]
pub fn p_comment(s: &str, i: usize, n: usize) -> (r: Option<(usize, Comment)>)
    requires
        i <= n == s@.len(),
    ensures
        match r {
            Some((j, c)) => i <= j <= n && parse_comment(s@.skip(i as int)) == Some((j - i, c@)),
            None => parse_comment(s@.skip(i as int)) is None,
        },
{
    let ghost t = s@.skip(i as int);
    let r0 = p_exact(s, i, "{\"body\":", n);
    if r0.is_none() {
        proof {
            assert(parse_comment(t) is None) by {
                reveal(parse_comment);
            }
        }
        proof {
            assert(parse_comment(t) is None) by {
                reveal(parse_comment);
                reveal(parse_comment_tail);
            }
        }
        return None;
    }
    let j0 = r0.unwrap();
    proof {
        lemma_skip_skip(s@, i as int, j0 - i);
    }
    let r1 = p_string(s, j0, n);
    if r1.is_none() {
        proof {
            assert(parse_comment(t) is None) by {
                reveal(parse_comment);
                reveal(parse_comment_tail);
            }
        }
        return None;
    }
    let (j1, body) = r1.unwrap();
    proof {
        lemma_skip_skip(s@, i as int, j1 - i);
    }
    let r2 = p_exact(s, j1, ",\"line\":", n);
    if r2.is_none() {
        proof {
            assert(parse_comment(t) is None) by {
                reveal(parse_comment);
                reveal(parse_comment_tail);
            }
        }
        return None;
    }
    let j2 = r2.unwrap();
    proof {
        lemma_skip_skip(s@, i as int, j2 - i);
    }
    let r3 = scan_u32(s, j2, n);
    if r3.is_none() {
        proof {
            assert(parse_comment(t) is None) by {
                reveal(parse_comment);
                reveal(parse_comment_tail);
            }
        }
        return None;
    }
    let (j3, line) = r3.unwrap();
    proof {
        lemma_skip_skip(s@, i as int, j3 - i);
    }
    let r4 = p_exact(s, j3, ",\"path\":", n);
    if r4.is_none() {
        proof {
            assert(parse_comment(t) is None) by {
                reveal(parse_comment);
                reveal(parse_comment_tail);
            }
        }
        return None;
    }
    let j4 = r4.unwrap();
    proof {
        lemma_skip_skip(s@, i as int, j4 - i);
    }
    let r5 = p_string(s, j4, n);
    if r5.is_none() {
        proof {
            assert(parse_comment(t) is None) by {
                reveal(parse_comment);
                reveal(parse_comment_tail);
            }
        }
        return None;
    }
    let (j5, path) = r5.unwrap();
    proof {
        lemma_skip_skip(s@, i as int, j5 - i);
    }
    let r6 = p_exact(s, j5, ",\"side\":", n);
    if r6.is_none() {
        proof {
            assert(parse_comment(t) is None) by {
                reveal(parse_comment);
                reveal(parse_comment_tail);
            }
        }
        return None;
    }
    let j6 = r6.unwrap();
    proof {
        lemma_skip_skip(s@, i as int, j6 - i);
    }
    let r7 = p_side(s, j6, n);
    if r7.is_none() {
        proof {
            assert(parse_comment(t) is None) by {
                reveal(parse_comment);
                reveal(parse_comment_tail);
            }
        }
        return None;
    }
    let (j7, side) = r7.unwrap();
    proof {
        lemma_skip_skip(s@, i as int, j7 - i);
    }
    let r8 = p_exact(s, j7, ",\"start_line\":", n);
    if r8.is_none() {
        proof {
            assert(parse_comment(t) is None) by {
                reveal(parse_comment);
                reveal(parse_comment_tail);
            }
        }
        return None;
    }
    let j8 = r8.unwrap();
    proof {
        lemma_skip_skip(s@, i as int, j8 - i);
    }
    let r9 = p_opt_u32(s, j8, n);
    if r9.is_none() {
        proof {
            assert(parse_comment(t) is None) by {
                reveal(parse_comment);
                reveal(parse_comment_tail);
            }
        }
        return None;
    }
    let (j9, start_line) = r9.unwrap();
    proof {
        lemma_skip_skip(s@, i as int, j9 - i);
    }
    let r10 = p_exact(s, j9, ",\"start_side\":", n);
    if r10.is_none() {
        proof {
            assert(parse_comment(t) is None) by {
                reveal(parse_comment);
                reveal(parse_comment_tail);
            }
        }
        return None;
    }
    let j10 = r10.unwrap();
    proof {
        lemma_skip_skip(s@, i as int, j10 - i);
    }
    let r11 = p_opt_side(s, j10, n);
    if r11.is_none() {
        proof {
            assert(parse_comment(t) is None) by {
                reveal(parse_comment);
                reveal(parse_comment_tail);
            }
        }
        return None;
    }
    let (j11, start_side) = r11.unwrap();
    proof {
        lemma_skip_skip(s@, i as int, j11 - i);
        reveal_strlit("}");
        assert("}"@ =~= seq!['}']);
    }
    let r12 = p_exact(s, j11, "}", n);
    if r12.is_none() {
        proof {
            assert(parse_comment(t) is None) by {
                reveal(parse_comment);
                reveal(parse_comment_tail);
            }
        }
        return None;
    }
    let j12 = r12.unwrap();
    let c = Comment::new(body, line, path, side, start_line, start_side);
    proof {
        assert(parse_comment_tail(t, j5 - i, c@.body, line, c@.path) == Some(
            ((j12 - i) as int, c@),
        )) by {
            reveal(parse_comment_tail);
        }
        assert(parse_comment(t) == Some(((j12 - i) as int, c@))) by {
            reveal(parse_comment);
        }
    }
    Some((j12, c))
}

/// Consumes `null` or a comment object at character index `i` of `s`.
pub fn p_opt_comment(s: &str, i: usize, n: usize) -> (r: Option<(usize, Option<Comment>)>)
    requires
        i <= n == s@.len(),
    ensures
        match r {
            Some((j, v)) => i <= j <= n && parse_opt_comment(s@.skip(i as int)) == Some(
                (j - i, crate::review::opt_comment_view(v)),
            ),
            None => parse_opt_comment(s@.skip(i as int)) is None,
        },
{
    proof {
        reveal_strlit("null");
        assert("null"@ =~= null_seq());
    }
    match p_exact(s, i, "null", n) {
        Some(j) => Some((j, None)),
        None => match p_comment(s, i, n) {
            Some((j, c)) => Some((j, Some(c))),
            None => None,
        },
    }
}

/// Consumes a comment list at character index `i` of `s`.
#[verifier::rlimit(100)]
pub fn p_comments(s: &str, i: usize, n: usize) -> (r: Option<(usize, Vec<Comment>)>)
    requires
        i <= n == s@.len(),
    ensures
        match r {
            Some((j, cs)) => i <= j <= n && parse_comments(s@.skip(i as int)) == Some(
                (j - i, comments_view(cs@)),
            ),
            None => parse_comments(s@.skip(i as int)) is None,
        },
{
    proof {
        reveal(parse_comments);
        reveal(parse_comments_rest);
    }
    let ghost t0 = s@.skip(i as int);
    if i >= n {
        return None;
    }
    let c0 = s.get_char(i);
    proof {
        assert(t0[0] == s@[i as int]);
    }
    if c0 != '[' {
        return None;
    }
    proof {
        lemma_skip_skip(s@, i as int, 1);
    }
    if i + 1 >= n {
        proof {
            reveal_strlit("{\"body\":");
            assert(s@.skip(i + 1 as int).len() == 0);
            assert(parse_comment(s@.skip(i + 1 as int)) is None) by {
                reveal(parse_comment);
            }
        }
        return None;
    }
    let c1 = s.get_char(i + 1);
    proof {
        assert(s@.skip(i + 1 as int)[0] == s@[i + 1 as int]);
    }
    if c1 == ']' {
        let empty_cs: Vec<Comment> = Vec::new();
        proof {
            assert(comments_view(empty_cs@) =~= Seq::<CommentView>::empty());
            assert(parse_comments(t0) == Some((2int, Seq::<CommentView>::empty())));
        }
        return Some((i + 2, empty_cs));
    }
    let rc = p_comment(s, i + 1, n);
    if rc.is_none() {
        return None;
    }
    let (j0, first) = rc.unwrap();
    let mut acc: Vec<Comment> = Vec::new();
    acc.push(first);
    let mut j = j0;
    proof {
        assert(comments_view(acc@) =~= seq![first@]);
        lemma_skip_skip(s@, i + 1 as int, j0 - (i + 1));
        let x = parse_comments_rest(s@.skip(j0 as int));
        match x {
            None => {},
            Some((m, cs2)) => {
                assert(seq![first@] + cs2 =~= comments_view(acc@) + cs2);
            },
        }
        assert(parse_comments(t0) == list_step(
            parse_comments_rest(s@.skip(j as int)),
            j - i,
            comments_view(acc@),
        ));
    }
    loop
        invariant
            i <= j <= n == s@.len(),
            t0 == s@.skip(i as int),
            parse_comments(t0) == list_step(
                parse_comments_rest(s@.skip(j as int)),
                j - i,
                comments_view(acc@),
            ),
        decreases n - j,
    {
        proof {
            reveal(parse_comments_rest);
        }
        if j >= n {
            proof {
                assert(s@.skip(j as int).len() == 0);
                assert(parse_comments_rest(s@.skip(j as int)) is None);
            }
            return None;
        }
        let ch = s.get_char(j);
        proof {
            assert(s@.skip(j as int)[0] == s@[j as int]);
        }
        if ch == ']' {
            proof {
                assert(parse_comments_rest(s@.skip(j as int)) == Some(
                    (1int, Seq::<CommentView>::empty()),
                ));
                assert(comments_view(acc@) + Seq::<CommentView>::empty() =~= comments_view(acc@));
            }
            return Some((j + 1, acc));
        }
        if ch != ',' {
            proof {
                assert(parse_comments_rest(s@.skip(j as int)) is None);
            }
            return None;
        }
        proof {
            lemma_skip_skip(s@, j as int, 1);
        }
        let rc2 = p_comment(s, j + 1, n);
        if rc2.is_none() {
            return None;
        }
        let (j2, c) = rc2.unwrap();
        let ghost pre_views = comments_view(acc@);
        acc.push(c);
        proof {
            assert(comments_view(acc@) =~= pre_views.push(c@));
            lemma_skip_skip(s@, j as int, j2 - j);
            let x = parse_comments_rest(s@.skip(j2 as int));
            match x {
                None => {},
                Some((m, cs2)) => {
                    assert(pre_views + (seq![c@] + cs2) =~= comments_view(acc@) + cs2);
                },
            }
        }
        j = j2;
    }
}

/// Consumes one review object at character index `i` of `s`.
#[verifier::rlimit(100)]
pub fn p_review(s: &str, i: usize, n: usize) -> (r: Option<(usize, Review)>)
    requires
        i <= n == s@.len(),
    ensures
        match r {
            Some((j, rev)) => i <= j <= n && parse_review(s@.skip(i as int)) == Some(
                (j - i, rev@),
            ),
            None => parse_review(s@.skip(i as int)) is None,
        },
{
    let ghost t = s@.skip(i as int);
    let r0 = p_exact(s, i, "{\"owner\":", n);
    if r0.is_none() {
        proof {
            assert(parse_review(t) is None) by {
                reveal(parse_review);
                reveal(parse_review_mid);
                reveal(parse_review_tail);
            }
        }
        return None;
    }
    let j0 = r0.unwrap();
    proof {
        lemma_skip_skip(s@, i as int, j0 - i);
    }
    let r1 = p_string(s, j0, n);
    if r1.is_none() {
        proof {
            assert(parse_review(t) is None) by {
                reveal(parse_review);
                reveal(parse_review_mid);
                reveal(parse_review_tail);
            }
        }
        return None;
    }
    let (j1, owner) = r1.unwrap();
    proof {
        lemma_skip_skip(s@, i as int, j1 - i);
    }
    let r2 = p_exact(s, j1, ",\"repo\":", n);
    if r2.is_none() {
        proof {
            assert(parse_review(t) is None) by {
                reveal(parse_review);
                reveal(parse_review_mid);
                reveal(parse_review_tail);
            }
        }
        return None;
    }
    let j2 = r2.unwrap();
    proof {
        lemma_skip_skip(s@, i as int, j2 - i);
    }
    let r3 = p_string(s, j2, n);
    if r3.is_none() {
        proof {
            assert(parse_review(t) is None) by {
                reveal(parse_review);
                reveal(parse_review_mid);
                reveal(parse_review_tail);
            }
        }
        return None;
    }
    let (j3, repo) = r3.unwrap();
    proof {
        lemma_skip_skip(s@, i as int, j3 - i);
    }
    let r4 = p_exact(s, j3, ",\"backend\":", n);
    if r4.is_none() {
        proof {
            assert(parse_review(t) is None) by {
                reveal(parse_review);
                reveal(parse_review_mid);
                reveal(parse_review_tail);
            }
        }
        return None;
    }
    let j4 = r4.unwrap();
    proof {
        lemma_skip_skip(s@, i as int, j4 - i);
    }
    let r5 = p_backend(s, j4, n);
    if r5.is_none() {
        proof {
            assert(parse_review(t) is None) by {
                reveal(parse_review);
                reveal(parse_review_mid);
                reveal(parse_review_tail);
            }
        }
        return None;
    }
    let (j5, backend) = r5.unwrap();
    proof {
        lemma_skip_skip(s@, i as int, j5 - i);
    }
    let r6 = p_exact(s, j5, ",\"backend_url\":", n);
    if r6.is_none() {
        proof {
            assert(parse_review(t) is None) by {
                reveal(parse_review);
                reveal(parse_review_mid);
                reveal(parse_review_tail);
            }
        }
        return None;
    }
    let j6 = r6.unwrap();
    proof {
        lemma_skip_skip(s@, i as int, j6 - i);
    }
    let r7 = p_opt_string(s, j6, n);
    if r7.is_none() {
        proof {
            assert(parse_review(t) is None) by {
                reveal(parse_review);
                reveal(parse_review_mid);
                reveal(parse_review_tail);
            }
        }
        return None;
    }
    let (j7, backend_url) = r7.unwrap();
    proof {
        lemma_skip_skip(s@, i as int, j7 - i);
    }
    let r8 = p_exact(s, j7, ",\"pr_number\":", n);
    if r8.is_none() {
        proof {
            assert(parse_review(t) is None) by {
                reveal(parse_review);
                reveal(parse_review_mid);
                reveal(parse_review_tail);
            }
        }
        return None;
    }
    let j8 = r8.unwrap();
    proof {
        lemma_skip_skip(s@, i as int, j8 - i);
    }
    let r9 = scan_u32(s, j8, n);
    if r9.is_none() {
        proof {
            assert(parse_review(t) is None) by {
                reveal(parse_review);
                reveal(parse_review_mid);
                reveal(parse_review_tail);
            }
        }
        return None;
    }
    let (j9, pr_number) = r9.unwrap();
    proof {
        lemma_skip_skip(s@, i as int, j9 - i);
    }
    let r10 = p_exact(s, j9, ",\"body\":", n);
    if r10.is_none() {
        proof {
            assert(parse_review(t) is None) by {
                reveal(parse_review);
                reveal(parse_review_mid);
                reveal(parse_review_tail);
            }
        }
        return None;
    }
    let j10 = r10.unwrap();
    proof {
        lemma_skip_skip(s@, i as int, j10 - i);
    }
    let r11 = p_string(s, j10, n);
    if r11.is_none() {
        proof {
            assert(parse_review(t) is None) by {
                reveal(parse_review);
                reveal(parse_review_mid);
                reveal(parse_review_tail);
            }
        }
        return None;
    }
    let (j11, body) = r11.unwrap();
    proof {
        lemma_skip_skip(s@, i as int, j11 - i);
    }
    let r12 = p_exact(s, j11, ",\"comments\":", n);
    if r12.is_none() {
        proof {
            assert(parse_review(t) is None) by {
                reveal(parse_review);
                reveal(parse_review_mid);
                reveal(parse_review_tail);
            }
        }
        return None;
    }
    let j12 = r12.unwrap();
    proof {
        lemma_skip_skip(s@, i as int, j12 - i);
    }
    let r13 = p_comments(s, j12, n);
    if r13.is_none() {
        proof {
            assert(parse_review(t) is None) by {
                reveal(parse_review);
                reveal(parse_review_mid);
                reveal(parse_review_tail);
            }
        }
        return None;
    }
    let (j13, comments) = r13.unwrap();
    proof {
        lemma_skip_skip(s@, i as int, j13 - i);
    }
    let r14 = p_exact(s, j13, ",\"in_progress_comment\":", n);
    if r14.is_none() {
        proof {
            assert(parse_review(t) is None) by {
                reveal(parse_review);
                reveal(parse_review_mid);
                reveal(parse_review_tail);
            }
        }
        return None;
    }
    let j14 = r14.unwrap();
    proof {
        lemma_skip_skip(s@, i as int, j14 - i);
    }
    let r15 = p_opt_comment(s, j14, n);
    if r15.is_none() {
        proof {
            assert(parse_review(t) is None) by {
                reveal(parse_review);
                reveal(parse_review_mid);
                reveal(parse_review_tail);
            }
        }
        return None;
    }
    let (j15, draft) = r15.unwrap();
    proof {
        lemma_skip_skip(s@, i as int, j15 - i);
        reveal_strlit("}");
        assert("}"@ =~= seq!['}']);
    }
    let r16 = p_exact(s, j15, "}", n);
    if r16.is_none() {
        proof {
            assert(parse_review(t) is None) by {
                reveal(parse_review);
                reveal(parse_review_mid);
                reveal(parse_review_tail);
            }
        }
        return None;
    }
    let j16 = r16.unwrap();
    let rev = Review {
        owner,
        repo,
        backend,
        backend_url,
        pr_number,
        body,
        comments,
        in_progress_comment: draft,
    };
    proof {
        assert(parse_review_tail(
            t,
            j11 - i,
            rev@.owner,
            rev@.repo,
            backend,
            rev@.backend_url,
            pr_number,
            rev@.body,
        ) == Some(((j16 - i) as int, rev@))) by {
            reveal(parse_review_tail);
        }
        assert(parse_review_mid(t, j5 - i, rev@.owner, rev@.repo, backend) == Some(
            ((j16 - i) as int, rev@),
        )) by {
            reveal(parse_review_mid);
        }
        assert(parse_review(t) == Some(((j16 - i) as int, rev@))) by {
            reveal(parse_review);
        }
    }
    Some((j16, rev))
}

/// Consumes one configuration object at character index `i` of `s`.
#[verifier::rlimit(100)]
pub fn p_config(s: &str, i: usize, n: usize) -> (r: Option<(usize, Config)>)
    requires
        i <= n == s@.len(),
    ensures
        match r {
            Some((j, cfg)) => i <= j <= n && parse_config(s@.skip(i as int)) == Some(
                (j - i, cfg@),
            ),
            None => parse_config(s@.skip(i as int)) is None,
        },
{
    let ghost t = s@.skip(i as int);
    let r0 = p_exact(s, i, "{\"owner\":", n);
    if r0.is_none() {
        proof {
            assert(parse_config(t) is None) by {
                reveal(parse_config);
                reveal(parse_config_tail);
            }
        }
        return None;
    }
    let j0 = r0.unwrap();
    proof {
        lemma_skip_skip(s@, i as int, j0 - i);
    }
    let r1 = p_string(s, j0, n);
    if r1.is_none() {
        proof {
            assert(parse_config(t) is None) by {
                reveal(parse_config);
                reveal(parse_config_tail);
            }
        }
        return None;
    }
    let (j1, owner) = r1.unwrap();
    proof {
        lemma_skip_skip(s@, i as int, j1 - i);
    }
    let r2 = p_exact(s, j1, ",\"repo\":", n);
    if r2.is_none() {
        proof {
            assert(parse_config(t) is None) by {
                reveal(parse_config);
                reveal(parse_config_tail);
            }
        }
        return None;
    }
    let j2 = r2.unwrap();
    proof {
        lemma_skip_skip(s@, i as int, j2 - i);
    }
    let r3 = p_string(s, j2, n);
    if r3.is_none() {
        proof {
            assert(parse_config(t) is None) by {
                reveal(parse_config);
                reveal(parse_config_tail);
            }
        }
        return None;
    }
    let (j3, repo) = r3.unwrap();
    proof {
        lemma_skip_skip(s@, i as int, j3 - i);
    }
    let r4 = p_exact(s, j3, ",\"backend\":", n);
    if r4.is_none() {
        proof {
            assert(parse_config(t) is None) by {
                reveal(parse_config);
                reveal(parse_config_tail);
            }
        }
        return None;
    }
    let j4 = r4.unwrap();
    proof {
        lemma_skip_skip(s@, i as int, j4 - i);
    }
    let r5 = p_backend(s, j4, n);
    if r5.is_none() {
        proof {
            assert(parse_config(t) is None) by {
                reveal(parse_config);
                reveal(parse_config_tail);
            }
        }
        return None;
    }
    let (j5, backend) = r5.unwrap();
    proof {
        lemma_skip_skip(s@, i as int, j5 - i);
    }
    let r6 = p_exact(s, j5, ",\"backend_url\":", n);
    if r6.is_none() {
        proof {
            assert(parse_config(t) is None) by {
                reveal(parse_config);
                reveal(parse_config_tail);
            }
        }
        return None;
    }
    let j6 = r6.unwrap();
    proof {
        lemma_skip_skip(s@, i as int, j6 - i);
    }
    let r7 = p_opt_string(s, j6, n);
    if r7.is_none() {
        proof {
            assert(parse_config(t) is None) by {
                reveal(parse_config);
                reveal(parse_config_tail);
            }
        }
        return None;
    }
    let (j7, backend_url) = r7.unwrap();
    proof {
        lemma_skip_skip(s@, i as int, j7 - i);
    }
    let r8 = p_exact(s, j7, ",\"active_pr\":", n);
    if r8.is_none() {
        proof {
            assert(parse_config(t) is None) by {
                reveal(parse_config);
                reveal(parse_config_tail);
            }
        }
        return None;
    }
    let j8 = r8.unwrap();
    proof {
        lemma_skip_skip(s@, i as int, j8 - i);
    }
    let r9 = p_opt_u32(s, j8, n);
    if r9.is_none() {
        proof {
            assert(parse_config(t) is None) by {
                reveal(parse_config);
                reveal(parse_config_tail);
            }
        }
        return None;
    }
    let (j9, active_pr) = r9.unwrap();
    proof {
        lemma_skip_skip(s@, i as int, j9 - i);
        reveal_strlit("}");
        assert("}"@ =~= seq!['}']);
    }
    let r10 = p_exact(s, j9, "}", n);
    if r10.is_none() {
        proof {
            assert(parse_config(t) is None) by {
                reveal(parse_config);
                reveal(parse_config_tail);
            }
        }
        return None;
    }
    let j10 = r10.unwrap();
    let cfg = Config { owner, repo, backend, backend_url, active_pr };
    proof {
        assert(parse_config_tail(t, j5 - i, cfg@.owner, cfg@.repo, backend) == Some(
            ((j10 - i) as int, cfg@),
        )) by {
            reveal(parse_config_tail);
        }
        assert(parse_config(t) == Some(((j10 - i) as int, cfg@))) by {
            reveal(parse_config);
        }
    }
    Some((j10, cfg))
}

impl Review {
    /// Reads a review back from its canonical persisted form; `None` exactly
    /// when `s` is not such a document.
    pub fn from_json(s: &str) -> (r: Option<Review>)
        ensures
            match r {
                Some(rev) => parse_review_doc(s@) == Some(rev@),
                None => parse_review_doc(s@) is None,
            },
    {
        let n: usize = s.unicode_len();
        proof {
            assert(s@.skip(0) =~= s@);
        }
        match p_review(s, 0, n) {
            Some((j, rev)) => {
                if j == n {
                    Some(rev)
                } else {
                    None
                }
            },
            None => None,
        }
    }
}

impl Config {
    /// Reads a configuration record back from its canonical persisted form;
    /// `None` exactly when `s` is not such a document.
    pub fn from_json(s: &str) -> (r: Option<Config>)
        ensures
            match r {
                Some(cfg) => parse_config_doc(s@) == Some(cfg@),
                None => parse_config_doc(s@) is None,
            },
    {
        let n: usize = s.unicode_len();
        proof {
            assert(s@.skip(0) =~= s@);
        }
        match p_config(s, 0, n) {
            Some((j, cfg)) => {
                if j == n {
                    Some(cfg)
                } else {
                    None
                }
            },
            None => None,
        }
    }
}

} // verus!
