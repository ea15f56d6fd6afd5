//! Character-sequence utilities shared by the URL parser, the persisted
//! document codec and the payload builders: decimal rendering and scanning
//! of `u32` values, and substring search over `&str` values.

use vstd::prelude::*;

verus! {

/// Relies on std's `String::push`: appends the given character to the end of
/// the string.
#[verifier::external_body]
pub fn push_char(s: &mut String, c: char)
    ensures
        final(s)@ == old(s)@.push(c),
{
    s.push(c);
}

// ---------------------------------------------------------------------------
// Decimal representation of u32 values
// ---------------------------------------------------------------------------

pub open spec fn is_digit(c: char) -> bool {
    '0' <= c && c <= '9'
}

pub open spec fn digit_char(d: nat) -> char
    recommends
        d < 10,
{
    ((48 + d) as u8) as char
}

pub open spec fn digit_val(c: char) -> nat
    recommends
        is_digit(c),
{
    (c as int - 48) as nat
}

/// The usual decimal rendering of `n`: no sign, and no leading zero except
/// for the number zero itself.
pub open spec fn dec_rep(n: nat) -> Seq<char>
    decreases n,
{
    if n < 10 {
        seq![digit_char(n)]
    } else {
        dec_rep(n / 10).push(digit_char(n % 10))
    }
}

/// Value of a sequence of decimal digit characters, most significant first.
pub open spec fn dec_val(ds: Seq<char>) -> nat
    decreases ds.len(),
{
    if ds.len() == 0 {
        0
    } else {
        dec_val(ds.drop_last()) * 10 + digit_val(ds.last())
    }
}

/// How many decimal digit characters `s` starts with.
pub open spec fn leading_digits(s: Seq<char>) -> int
    decreases s.len(),
{
    if s.len() == 0 || !is_digit(s[0]) {
        0
    } else {
        1 + leading_digits(s.drop_first())
    }
}

/// Greedy scan of a decimal number: consumes every leading digit, and
/// succeeds exactly when there is at least one digit and the value fits in a
/// `u32`.
pub open spec fn parse_u32(s: Seq<char>) -> Option<(int, u32)> {
    let k = leading_digits(s);
    if k == 0 {
        None
    } else if dec_val(s.take(k)) <= u32::MAX {
        Some((k, dec_val(s.take(k)) as u32))
    } else {
        None
    }
}

proof fn lemma_digit_char_val(d: nat)
    requires
        d < 10,
    ensures
        is_digit(digit_char(d)),
        digit_val(digit_char(d)) == d,
{
    assert(((48 + d) as u8) as char as int == 48 + d);
}

pub proof fn lemma_dec_rep_digits(n: nat)
    ensures
        dec_rep(n).len() >= 1,
        forall|i: int| 0 <= i < dec_rep(n).len() ==> is_digit(#[trigger] dec_rep(n)[i]),
    decreases n,
{
    if n < 10 {
        lemma_digit_char_val(n);
    } else {
        lemma_dec_rep_digits(n / 10);
        lemma_digit_char_val(n % 10);
        assert forall|i: int| 0 <= i < dec_rep(n).len() implies is_digit(
            #[trigger] dec_rep(n)[i],
        ) by {
            if i < dec_rep(n / 10).len() {
                assert(dec_rep(n)[i] == dec_rep(n / 10)[i]);
            }
        }
    }
}

pub proof fn lemma_dec_val_of_rep(n: nat)
    ensures
        dec_val(dec_rep(n)) == n,
    decreases n,
{
    if n < 10 {
        lemma_digit_char_val(n);
        let ds = dec_rep(n);
        assert(ds =~= seq![digit_char(n)]);
        assert(ds.drop_last() =~= Seq::<char>::empty());
        assert(ds.last() == digit_char(n));
        assert(dec_val(ds) == dec_val(ds.drop_last()) * 10 + digit_val(ds.last()));
        assert(dec_val(ds.drop_last()) == 0);
    } else {
        lemma_dec_val_of_rep(n / 10);
        lemma_digit_char_val(n % 10);
        assert(dec_rep(n).drop_last() =~= dec_rep(n / 10));
        assert(n / 10 * 10 + n % 10 == n);
    }
}

pub proof fn lemma_leading_digits_exact(s: Seq<char>, k: int)
    requires
        0 <= k <= s.len(),
        forall|i: int| 0 <= i < k ==> is_digit(#[trigger] s[i]),
        k == s.len() || !is_digit(s[k]),
    ensures
        leading_digits(s) == k,
    decreases s.len(),
{
    if k == 0 {
    } else {
        lemma_leading_digits_exact(s.drop_first(), k - 1);
    }
}

/// Scanning the decimal rendering of `n` (with anything that does not start
/// with a digit after it) gives back exactly `n`.
pub proof fn lemma_parse_u32_of_rep(n: u32, rest: Seq<char>)
    requires
        rest.len() == 0 || !is_digit(rest[0]),
    ensures
        parse_u32(dec_rep(n as nat) + rest) == Some((dec_rep(n as nat).len() as int, n)),
{
    let ds = dec_rep(n as nat);
    let s = ds + rest;
    lemma_dec_rep_digits(n as nat);
    assert forall|i: int| 0 <= i < ds.len() implies is_digit(#[trigger] s[i]) by {
        assert(s[i] == ds[i]);
    }
    if (ds.len() as int) < s.len() {
        assert(s[ds.len() as int] == rest[0]);
    }
    lemma_leading_digits_exact(s, ds.len() as int);
    assert(s.take(ds.len() as int) =~= ds);
    lemma_dec_val_of_rep(n as nat);
}

/// The characters of the digit bytes `ds`, read back to front.
pub open spec fn chars_of_rev(ds: Seq<u8>) -> Seq<char>
    decreases ds.len(),
{
    if ds.len() == 0 {
        Seq::empty()
    } else {
        seq![ds.last() as char] + chars_of_rev(ds.drop_last())
    }
}

/// Appends the decimal rendering of `n` to `out`.
pub fn append_dec_u32(out: &mut String, n: u32)
    ensures
        final(out)@ == old(out)@ + dec_rep(n as nat),
{
    let mut digits: Vec<u8> = Vec::new();
    let mut m: u32 = n;
    proof {
        assert(dec_rep(n as nat) =~= dec_rep(m as nat) + chars_of_rev(digits@));
    }
    while m >= 10
        invariant
            dec_rep(n as nat) =~= dec_rep(m as nat) + chars_of_rev(digits@),
        decreases m,
    {
        let d: u8 = 48 + (m % 10) as u8;
        let ghost dpre = digits@;
        digits.push(d);
        proof {
            assert(digits@.drop_last() =~= dpre);
            assert(d as char == digit_char((m % 10) as nat));
            assert(chars_of_rev(digits@) =~= seq![digit_char((m % 10) as nat)] + chars_of_rev(
                dpre,
            ));
            assert(dec_rep((m / 10) as nat) + chars_of_rev(digits@) =~= dec_rep(m as nat)
                + chars_of_rev(dpre));
        }
        m = m / 10;
    }
    let first: u8 = 48 + m as u8;
    push_char(out, first as char);
    proof {
        assert(first as char == digit_char(m as nat));
        assert(out@ =~= old(out)@ + dec_rep(m as nat));
    }
    let ghost mid = out@;
    let ghost pending = digits@;
    proof {
        assert(mid + chars_of_rev(pending) =~= old(out)@ + dec_rep(n as nat));
    }
    loop
        invariant
            out@ + chars_of_rev(digits@) =~= old(out)@ + dec_rep(n as nat),
        ensures
            digits@.len() == 0,
            out@ + chars_of_rev(digits@) =~= old(out)@ + dec_rep(n as nat),
        decreases digits@.len(),
    {
        let ghost dpre = digits@;
        let popped = digits.pop();
        match popped {
            None => {
                break ;
            },
            Some(d) => {
                push_char(out, d as char);
                proof {
                    assert(chars_of_rev(dpre) =~= seq![d as char] + chars_of_rev(digits@));
                    assert(out@ + chars_of_rev(digits@) =~= old(out)@ + dec_rep(n as nat));
                }
            },
        }
    }
    proof {
        assert(out@ + chars_of_rev(digits@) =~= out@);
    }
}

/// Scans a decimal `u32` starting at character index `i` of `s`; `n` is the
/// character length of `s`.
pub fn scan_u32(s: &str, i: usize, n: usize) -> (r: Option<(usize, u32)>)
    requires
        i <= n == s@.len(),
    ensures
        match r {
            Some((j, v)) => i <= j <= n && parse_u32(s@.skip(i as int)) == Some((j - i, v)),
            None => parse_u32(s@.skip(i as int)) is None,
        },
{
    let ghost t = s@.skip(i as int);
    let mut j: usize = i;
    let mut acc: u64 = 0;
    let mut over: bool = false;
    loop
        invariant
            i <= j <= n == s@.len(),
            forall|m: int| i <= m < j ==> is_digit(#[trigger] s@[m]),
            !over ==> acc == dec_val(s@.subrange(i as int, j as int)) && acc <= u32::MAX,
            over ==> dec_val(s@.subrange(i as int, j as int)) > u32::MAX,
        ensures
            i <= j <= n,
            forall|m: int| i <= m < j ==> is_digit(#[trigger] s@[m]),
            !over ==> acc == dec_val(s@.subrange(i as int, j as int)) && acc <= u32::MAX,
            over ==> dec_val(s@.subrange(i as int, j as int)) > u32::MAX,
            j == n || !is_digit(s@[j as int]),
        decreases n - j,
    {
        if j >= n {
            break ;
        }
        let c = s.get_char(j);
        let cv: u32 = c as u32;
        if cv < 48 || cv > 57 {
            assert(!is_digit(s@[j as int]));
            break ;
        }
        let d: u64 = (cv - 48) as u64;
        proof {
            assert(s@.subrange(i as int, j + 1 as int).drop_last() =~= s@.subrange(
                i as int,
                j as int,
            ));
            assert(dec_val(s@.subrange(i as int, j + 1 as int)) == dec_val(
                s@.subrange(i as int, j as int),
            ) * 10 + digit_val(s@[j as int]));
        }
        if !over {
            acc = acc * 10 + d;
            if acc > u32::MAX as u64 {
                over = true;
            }
        } else {
            proof {
                assert(dec_val(s@.subrange(i as int, j + 1 as int)) >= dec_val(
                    s@.subrange(i as int, j as int),
                ));
            }
        }
        j = j + 1;
    }
    proof {
        assert forall|m: int| 0 <= m < j - i implies is_digit(#[trigger] t[m]) by {
            assert(t[m] == s@[i + m]);
        }
        if j - i < t.len() {
            assert(t[j - i] == s@[j as int]);
        }
        lemma_leading_digits_exact(t, j - i);
        assert(t.take(j - i) =~= s@.subrange(i as int, j as int));
    }
    if j == i {
        None
    } else if over {
        None
    } else {
        Some((j, acc as u32))
    }
}

// ---------------------------------------------------------------------------
// Substring search
// ---------------------------------------------------------------------------

/// `p` occurs in `s` starting at index `i`.
pub open spec fn seq_at(s: Seq<char>, i: int, p: Seq<char>) -> bool {
    0 <= i && i + p.len() <= s.len() && s.subrange(i, i + p.len()) == p
}

/// `p` occurs somewhere in `s`.
pub open spec fn contains_seq(s: Seq<char>, p: Seq<char>) -> bool {
    exists|i: int| seq_at(s, i, p)
}

/// Index of the first occurrence of `p` in `s` (equal to `s.len()` when a
/// non-empty `p` does not occur at all).
pub open spec fn first_at(s: Seq<char>, p: Seq<char>) -> int
    decreases s.len(),
{
    if seq_at(s, 0, p) {
        0
    } else if s.len() == 0 {
        0
    } else {
        1 + first_at(s.drop_first(), p)
    }
}

pub proof fn lemma_first_at(s: Seq<char>, p: Seq<char>)
    requires
        contains_seq(s, p),
    ensures
        seq_at(s, first_at(s, p), p),
        forall|i: int| 0 <= i < first_at(s, p) ==> !seq_at(s, i, p),
    decreases s.len(),
{
    if seq_at(s, 0, p) {
    } else {
        let w = choose|i: int| seq_at(s, i, p);
        assert(w >= 1);
        assert(seq_at(s.drop_first(), w - 1, p)) by {
            assert(s.drop_first().subrange(w - 1, w - 1 + p.len()) =~= s.subrange(w, w + p.len()));
        }
        lemma_first_at(s.drop_first(), p);
        let f = first_at(s.drop_first(), p);
        assert(seq_at(s, 1 + f, p)) by {
            assert(s.subrange(1 + f, 1 + f + p.len()) =~= s.drop_first().subrange(f, f + p.len()));
        }
        assert forall|i: int| 0 <= i < 1 + f implies !seq_at(s, i, p) by {
            if i >= 1 && seq_at(s, i, p) {
                assert(s.drop_first().subrange(i - 1, i - 1 + p.len()) =~= s.subrange(
                    i,
                    i + p.len(),
                ));
                assert(seq_at(s.drop_first(), i - 1, p));
            }
        }
    }
}

/// Does `p` occur in `s` starting exactly at character index `i`?
pub fn match_at(s: &str, i: usize, p: &str, sn: usize, pn: usize) -> (r: bool)
    requires
        sn == s@.len(),
        pn == p@.len(),
        i <= sn,
    ensures
        r == seq_at(s@, i as int, p@),
{
    if pn > sn - i {
        return false;
    }
    let mut k: usize = 0;
    while k < pn
        invariant
            k <= pn,
            i + pn <= sn == s@.len(),
            pn == p@.len(),
            forall|m: int| 0 <= m < k ==> s@[i + m] == p@[m],
        decreases pn - k,
    {
        if s.get_char(i + k) != p.get_char(k) {
            assert(s@.subrange(i as int, i + pn as int)[k as int] != p@[k as int]);
            return false;
        }
        k = k + 1;
    }
    assert(s@.subrange(i as int, i + pn as int) =~= p@);
    true
}

/// Index of the first occurrence of `p` in `s`, if `p` occurs at all.
pub fn find_sub(s: &str, p: &str) -> (r: Option<usize>)
    ensures
        match r {
            Some(i) => contains_seq(s@, p@) && i == first_at(s@, p@),
            None => !contains_seq(s@, p@),
        },
{
    let sn: usize = s.unicode_len();
    let pn: usize = p.unicode_len();
    let mut i: usize = 0;
    while i < sn
        invariant
            sn == s@.len(),
            pn == p@.len(),
            i <= sn,
            forall|m: int| 0 <= m < i ==> !seq_at(s@, m, p@),
        decreases sn - i,
    {
        if match_at(s, i, p, sn, pn) {
            proof {
                lemma_first_at(s@, p@);
            }
            return Some(i);
        }
        i = i + 1;
    }
    if match_at(s, sn, p, sn, pn) {
        proof {
            lemma_first_at(s@, p@);
        }
        return Some(sn);
    }
    proof {
        if contains_seq(s@, p@) {
            let w = choose|w: int| seq_at(s@, w, p@);
            assert(w <= sn);
            assert(false);
        }
    }
    None
}

/// Does `p` occur anywhere in `s`?
pub fn contains_sub(s: &str, p: &str) -> (r: bool)
    ensures
        r == contains_seq(s@, p@),
{
    match find_sub(s, p) {
        Some(_) => true,
        None => false,
    }
}

/// Does `s` contain the character `c`?
pub open spec fn contains_char(s: Seq<char>, c: char) -> bool {
    exists|i: int| 0 <= i < s.len() && s[i] == c
}

pub fn find_char(s: &str, c: char) -> (r: Option<usize>)
    ensures
        match r {
            Some(i) => i < s@.len() && s@[i as int] == c && forall|m: int| 0 <= m < i ==> s@[m] != c,
            None => !contains_char(s@, c),
        },
{
    let n: usize = s.unicode_len();
    let mut i: usize = 0;
    while i < n
        invariant
            n == s@.len(),
            i <= n,
            forall|m: int| 0 <= m < i ==> s@[m] != c,
        decreases n - i,
    {
        if s.get_char(i) == c {
            return Some(i);
        }
        i = i + 1;
    }
    None
}


// ---------------------------------------------------------------------------
// Colon and slash splitting
// ---------------------------------------------------------------------------

/// The characters after the last colon of `s` (all of `s` when it has none).
pub open spec fn after_last_colon(s: Seq<char>) -> Seq<char>
    decreases s.len(),
{
    if s.len() == 0 {
        Seq::empty()
    } else if s.last() == ':' {
        Seq::empty()
    } else {
        after_last_colon(s.drop_last()).push(s.last())
    }
}

pub proof fn lemma_after_last_colon_at(s: Seq<char>, idx: int)
    requires
        0 <= idx < s.len(),
        s[idx] == ':',
        forall|m: int| idx < m < s.len() ==> s[m] != ':',
    ensures
        after_last_colon(s) == s.subrange(idx + 1, s.len() as int),
    decreases s.len(),
{
    if idx == s.len() - 1 {
        assert(s.last() == ':');
        assert(s.subrange(idx + 1, s.len() as int) =~= Seq::<char>::empty());
    } else {
        assert(s.last() != ':');
        lemma_after_last_colon_at(s.drop_last(), idx);
        assert(s.drop_last().subrange(idx + 1, s.len() - 1) =~= s.subrange(idx + 1, s.len() - 1));
        assert(s.subrange(idx + 1, s.len() - 1).push(s.last()) =~= s.subrange(
            idx + 1,
            s.len() as int,
        ));
    }
}

/// Index of the first slash in `s`, or its length when it has none.
pub open spec fn first_slash(s: Seq<char>) -> int
    decreases s.len(),
{
    if s.len() == 0 {
        0
    } else if s[0] == '/' {
        0
    } else {
        1 + first_slash(s.drop_first())
    }
}

pub proof fn lemma_first_slash_exact(s: Seq<char>, k: int)
    requires
        0 <= k <= s.len(),
        forall|m: int| 0 <= m < k ==> s[m] != '/',
        k == s.len() || s[k] == '/',
    ensures
        first_slash(s) == k,
    decreases s.len(),
{
    if k > 0 {
        lemma_first_slash_exact(s.drop_first(), k - 1);
    }
}

/// Splits `s` at every slash: one more segment than slashes, empty segments
/// kept.
pub open spec fn split_slash(s: Seq<char>) -> Seq<Seq<char>>
    decreases s.len(),
{
    let i = first_slash(s);
    if i < 0 || i >= s.len() {
        seq![s]
    } else {
        seq![s.take(i)] + split_slash(s.skip(i + 1))
    }
}

/// The views of a sequence of strings.
pub open spec fn strings_view(ss: Seq<String>) -> Seq<Seq<char>> {
    ss.map_values(|x: String| x@)
}

} // verus!
