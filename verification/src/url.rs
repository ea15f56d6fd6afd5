//! The repository locator: derives `(owner, repo, backend)` from a git
//! remote URL, in its SSH form `user@host:owner/repo.git` or its HTTPS form
//! `scheme://host/owner/repo.git`, and reads the richer per-repository
//! configuration document that can replace remote-URL detection.

use crate::review::GitBackend;
use crate::text::{after_last_colon, contains_char, contains_seq, find_char, find_sub, first_at,
    match_at, seq_at, split_slash, strings_view};
use vstd::prelude::*;

verus! {

/// Why a remote URL was rejected.
#[derive(Clone, Copy, Debug, PartialEq, Eq, Structural)]
pub enum UrlError {
    /// Neither backend's name occurs in the URL.
    UnknownBackend,
    /// An SSH-form URL with fewer than two path segments after the colon.
    MalformedSshUrl,
    /// An HTTPS-form URL with fewer than three path segments after the
    /// scheme.
    MalformedHttpsUrl,
    /// Neither the SSH nor the HTTPS shape.
    UnsupportedUrl,
}

/// Removes every occurrence of `.git`, scanning left to right without
/// overlap, as a substring replacement does.
pub open spec fn remove_git(s: Seq<char>) -> Seq<char>
    decreases s.len(),
{
    if s.len() < 4 {
        s
    } else if s.subrange(0, 4) == ".git"@ {
        remove_git(s.skip(4))
    } else {
        seq![s[0]] + remove_git(s.skip(1))
    }
}

/// Which backend a remote URL names: `gitlab` anywhere wins, then `github`.
pub open spec fn spec_backend_of(url: Seq<char>) -> Option<GitBackend> {
    if contains_seq(url, "gitlab"@) {
        Some(GitBackend::GitLab)
    } else if contains_seq(url, "github"@) {
        Some(GitBackend::GitHub)
    } else {
        None
    }
}

/// The SSH shape: a user part, a host part and a colon-separated path, with
/// no scheme separator anywhere.
pub open spec fn is_ssh_form(url: Seq<char>) -> bool {
    contains_char(url, '@') && contains_char(url, ':') && !contains_seq(url, "://"@)
}

/// What `parse_config_from_url` returns, over character sequences.
pub open spec fn spec_parse_url(url: Seq<char>) -> Result<
    (Seq<char>, Seq<char>, GitBackend),
    UrlError,
> {
    match spec_backend_of(url) {
        None => Err(UrlError::UnknownBackend),
        Some(b) => {
            if is_ssh_form(url) {
                let segs = split_slash(after_last_colon(url));
                if segs.len() < 2 {
                    Err(UrlError::MalformedSshUrl)
                } else {
                    Ok((segs[0], remove_git(segs[1]), b))
                }
            } else if contains_seq(url, "://"@) {
                let segs = split_slash(url.skip(first_at(url, "://"@) + 3));
                if segs.len() < 3 {
                    Err(UrlError::MalformedHttpsUrl)
                } else {
                    Ok((segs[1], remove_git(segs[2]), b))
                }
            } else {
                Err(UrlError::UnsupportedUrl)
            }
        },
    }
}

/// The base `scheme://host` of an HTTPS-form URL, if it has a scheme.
pub open spec fn spec_base_url(url: Seq<char>) -> Option<Seq<char>> {
    if contains_seq(url, "://"@) {
        let i = first_at(url, "://"@);
        let rest = url.skip(i + 3);
        Some(url.take(i) + "://"@ + rest.take(crate::text::first_slash(rest)))
    } else {
        None
    }
}

pub open spec fn result_view(r: Result<(String, String, GitBackend), UrlError>) -> Result<
    (Seq<char>, Seq<char>, GitBackend),
    UrlError,
> {
    match r {
        Ok((o, p, b)) => Ok((o@, p@, b)),
        Err(e) => Err(e),
    }
}

/// Removes every `.git` occurrence from `s`, as the specification says.
fn remove_git_exec(s: &str) -> (r: String)
    ensures
        r@ == remove_git(s@),
{
    proof {
        reveal_strlit(".git");
        assert(".git"@.len() == 4);
    }
    let n: usize = s.unicode_len();
    let mut out = String::new();
    let mut i: usize = 0;
    proof {
        assert(s@.skip(0) =~= s@);
        assert(out@ + remove_git(s@.skip(0)) =~= remove_git(s@));
    }
    while i < n
        invariant
            i <= n == s@.len(),
            out@ + remove_git(s@.skip(i as int)) == remove_git(s@),
        decreases n - i,
    {
        proof {
            reveal_strlit(".git");
            assert(".git"@.len() == 4);
        }
        let ghost t = s@.skip(i as int);
        let hit = if n - i >= 4 {
            match_at(s, i, ".git", n, 4)
        } else {
            false
        };
        if hit {
            proof {
                assert(t.subrange(0, 4) =~= s@.subrange(i as int, i + 4 as int));
                assert(t.skip(4) =~= s@.skip(i + 4 as int));
            }
            i = i + 4;
        } else {
            let c = s.get_char(i);
            let ghost pre = out@;
            crate::text::push_char(&mut out, c);
            proof {
                assert(t[0] == c);
                assert(t.skip(1) =~= s@.skip(i + 1 as int));
                if t.len() >= 4 {
                    assert(t.subrange(0, 4) =~= s@.subrange(i as int, i + 4 as int));
                    assert(t.subrange(0, 4) != ".git"@);
                    assert(remove_git(t) == seq![c] + remove_git(t.skip(1)));
                } else {
                    assert(remove_git(t) == t);
                    assert(remove_git(t.skip(1)) == t.skip(1));
                    assert(t =~= seq![c] + t.skip(1));
                }
                assert(pre + (seq![c] + remove_git(s@.skip(i + 1 as int))) =~= out@ + remove_git(
                    s@.skip(i + 1 as int),
                ));
            }
            i = i + 1;
        }
    }
    proof {
        assert(s@.skip(n as int).len() == 0);
        assert(remove_git(s@.skip(n as int)) =~= Seq::<char>::empty());
        assert(out@ + remove_git(s@.skip(n as int)) =~= out@);
    }
    out
}

/// Splits `s` on `/`, keeping empty segments, as the specification says.
fn split_slash_exec(s: &str) -> (r: Vec<String>)
    ensures
        strings_view(r@) == split_slash(s@),
{
    let n: usize = s.unicode_len();
    let mut segs: Vec<String> = Vec::new();
    let mut start: usize = 0;
    let mut i: usize = 0;
    proof {
        assert(s@.skip(0) =~= s@);
        assert(strings_view(segs@) =~= Seq::<Seq<char>>::empty());
        assert(strings_view(segs@) + split_slash(s@.skip(0)) =~= split_slash(s@));
    }
    while i < n
        invariant
            start <= i <= n == s@.len(),
            forall|m: int| start <= m < i ==> s@[m] != '/',
            strings_view(segs@) + split_slash(s@.skip(start as int)) == split_slash(s@),
        decreases n - i,
    {
        if s.get_char(i) == '/' {
            let piece = s.substring_char(start, i);
            let ghost pre = strings_view(segs@);
            segs.push(piece.to_owned());
            proof {
                let t = s@.skip(start as int);
                assert(strings_view(segs@) =~= pre.push(piece@));
                assert forall|m: int| 0 <= m < i - start implies t[m] != '/' by {
                    assert(t[m] == s@[start + m]);
                }
                assert(t[i - start] == s@[i as int]);
                crate::text::lemma_first_slash_exact(t, i - start);
                assert(t.take(i - start) =~= s@.subrange(start as int, i as int));
                assert(t.skip(i - start + 1) =~= s@.skip(i + 1 as int));
                assert(split_slash(t) == seq![piece@] + split_slash(s@.skip(i + 1 as int)));
                assert(pre + (seq![piece@] + split_slash(s@.skip(i + 1 as int)))
                    =~= strings_view(segs@) + split_slash(s@.skip(i + 1 as int)));
            }
            start = i + 1;
        }
        i = i + 1;
    }
    let last = s.substring_char(start, n);
    let ghost pre = strings_view(segs@);
    segs.push(last.to_owned());
    proof {
        let t = s@.skip(start as int);
        assert(strings_view(segs@) =~= pre.push(last@));
        assert forall|m: int| 0 <= m < t.len() implies t[m] != '/' by {
            assert(t[m] == s@[start + m]);
        }
        crate::text::lemma_first_slash_exact(t, t.len() as int);
        assert(t.take(t.len() as int) =~= t);
        assert(t =~= s@.subrange(start as int, n as int));
        assert(split_slash(t) == seq![last@]);
        assert(pre + seq![last@] =~= strings_view(segs@));
        assert(strings_view(segs@) =~= strings_view(segs@) + Seq::<Seq<char>>::empty());
    }
    segs
}

/// The characters after the last colon of `s`: scans from the right.
fn after_last_colon_exec(s: &str, witness: usize) -> (r: String)
    requires
        witness < s@.len(),
        s@[witness as int] == ':',
    ensures
        r@ == after_last_colon(s@),
{
    let n: usize = s.unicode_len();
    let mut k: usize = n;
    while k > 0
        invariant
            k <= n == s@.len(),
            forall|m: int| k <= m < n ==> s@[m] != ':',
        decreases k,
    {
        k = k - 1;
        if s.get_char(k) == ':' {
            let piece = s.substring_char(k + 1, n);
            proof {
                crate::text::lemma_after_last_colon_at(s@, k as int);
            }
            return piece.to_owned();
        }
    }
    proof {
        assert(s@[witness as int] != ':');
        assert(false);
    }
    String::new()
}

/// Parses a git remote URL into the repository owner, the repository name
/// with any `.git` suffix removed, and the backend the host names; rejects
/// URLs of neither the SSH nor the HTTPS shape.
pub fn parse_config_from_url(url: &str) -> (r: Result<(String, String, GitBackend), UrlError>)
    ensures
        result_view(r) == spec_parse_url(url@),
{
    let is_lab = crate::text::contains_sub(url, "gitlab");
    let is_hub = if is_lab {
        false
    } else {
        crate::text::contains_sub(url, "github")
    };
    let backend = if is_lab {
        GitBackend::GitLab
    } else if is_hub {
        GitBackend::GitHub
    } else {
        return Err(UrlError::UnknownBackend);
    };
    let n: usize = url.unicode_len();
    let at_pos = find_char(url, '@');
    let colon_pos = find_char(url, ':');
    let scheme_pos = find_sub(url, "://");
    proof {
        match at_pos {
            Some(i) => {
                assert(contains_char(url@, '@'));
            },
            None => {},
        }
        match colon_pos {
            Some(i) => {
                assert(contains_char(url@, ':'));
            },
            None => {},
        }
    }
    match (at_pos, colon_pos, scheme_pos) {
        (Some(_), Some(ci), None) => {
            let rest = after_last_colon_exec(url, ci);
            let segs = split_slash_exec(rest.as_str());
            proof {
                assert(strings_view(segs@).len() == segs@.len());
            }
            if segs.len() < 2 {
                Err(UrlError::MalformedSshUrl)
            } else {
                let owner = segs[0].clone();
                let repo = remove_git_exec(segs[1].as_str());
                proof {
                    assert(strings_view(segs@)[0] == segs@[0]@);
                    assert(strings_view(segs@)[1] == segs@[1]@);
                }
                Ok((owner, repo, backend))
            }
        },
        (_, _, Some(si)) => {
            proof {
                reveal_strlit("://");
                assert("://"@.len() == 3);
                crate::text::lemma_first_at(url@, "://"@);
            }
            let rest = url.substring_char(si + 3, n);
            proof {
                assert(rest@ =~= url@.skip(si + 3));
            }
            let segs = split_slash_exec(rest);
            proof {
                assert(strings_view(segs@).len() == segs@.len());
            }
            if segs.len() < 3 {
                Err(UrlError::MalformedHttpsUrl)
            } else {
                let owner = segs[1].clone();
                let repo = remove_git_exec(segs[2].as_str());
                proof {
                    assert(strings_view(segs@)[1] == segs@[1]@);
                    assert(strings_view(segs@)[2] == segs@[2]@);
                }
                Ok((owner, repo, backend))
            }
        },
        _ => Err(UrlError::UnsupportedUrl),
    }
}

/// The base `scheme://host` of an HTTPS-form URL, for self-hosted backends.
pub fn base_url_of(url: &str) -> (r: Option<String>)
    ensures
        crate::review::opt_string_view(r) == spec_base_url(url@),
{
    let n: usize = url.unicode_len();
    match find_sub(url, "://") {
        None => None,
        Some(si) => {
            proof {
                reveal_strlit("://");
                assert("://"@.len() == 3);
                crate::text::lemma_first_at(url@, "://"@);
            }
            let mut out = url.substring_char(0, si).to_owned();
            out.append("://");
            let rest = url.substring_char(si + 3, n);
            proof {
                assert(rest@ =~= url@.skip(si + 3));
            }
            let rn: usize = rest.unicode_len();
            let host_end = match find_char(rest, '/') {
                Some(h) => h,
                None => rn,
            };
            proof {
                if host_end < rn {
                    crate::text::lemma_first_slash_exact(rest@, host_end as int);
                } else {
                    crate::text::lemma_first_slash_exact(rest@, rest@.len() as int);
                }
            }
            let host = rest.substring_char(0, host_end);
            out.append(host);
            proof {
                assert(host@ =~= rest@.take(crate::text::first_slash(rest@)));
                assert(url@.take(si as int) + "://"@ + host@ =~= out@);
            }
            Some(out)
        },
    }
}

// ---------------------------------------------------------------------------
// The richer configuration source: a TOML document with a backend table
// ---------------------------------------------------------------------------

/// What the backend table of a TOML document holds: its `type`, optional
/// `url` and `token` entries, or nothing when the document or an entry is
/// not well formed.
pub uninterp spec fn toml_backend_of(s: Seq<char>) -> Option<
    (Seq<char>, Option<Seq<char>>, Seq<char>),
>;

pub open spec fn table_view(r: Option<(String, Option<String>, String)>) -> Option<
    (Seq<char>, Option<Seq<char>>, Seq<char>),
> {
    match r {
        None => None,
        Some((t, u, k)) => Some((t@, crate::review::opt_string_view(u), k@)),
    }
}

/// Relies on toml::from_str and toml::Value::{get, as_str}: reads the
/// `backend` table's `type`, optional `url`, and `token` string entries out
/// of a TOML document; the result depends on the text alone.
#[verifier::external_body]
fn read_backend_table(s: &str) -> (r: Option<(String, Option<String>, String)>)
    ensures
        table_view(r) == toml_backend_of(s@),
{
    let v: toml::Value = toml::from_str(s).ok()?;
    let b = v.get("backend")?;
    let ty = b.get("type")?.as_str()?.to_string();
    let url = match b.get("url") {
        Some(u) => Some(u.as_str()?.to_string()),
        None => None,
    };
    let token = b.get("token")?.as_str()?.to_string();
    Some((ty, url, token))
}

/// ASCII lowercase folding of one character.
pub open spec fn lower_char(c: char) -> char {
    if 'A' <= c && c <= 'Z' {
        ((c as u8) + 32) as char
    } else {
        c
    }
}

pub open spec fn lower_seq(s: Seq<char>) -> Seq<char> {
    s.map_values(|c: char| lower_char(c))
}

/// The backend named by a `type` entry, compared ASCII-case-insensitively
/// against `github` and `gitlab`.
pub open spec fn spec_backend_from(t: Seq<char>) -> Option<GitBackend> {
    if lower_seq(t) == "github"@ {
        Some(GitBackend::GitHub)
    } else if lower_seq(t) == "gitlab"@ {
        Some(GitBackend::GitLab)
    } else {
        None
    }
}

/// Resolves a backend `type` entry to a backend.
pub fn backend_from_str(t: &str) -> (r: Option<GitBackend>)
    ensures
        r == spec_backend_from(t@),
{
    let n: usize = t.unicode_len();
    let mut low = String::new();
    let mut i: usize = 0;
    proof {
        assert(low@ =~= lower_seq(t@.take(0)));
    }
    while i < n
        invariant
            i <= n == t@.len(),
            low@ == lower_seq(t@.take(i as int)),
        decreases n - i,
    {
        let c = t.get_char(i);
        let cv: u32 = c as u32;
        let lc: char = if cv >= 65 && cv <= 90 {
            ((cv + 32) as u8) as char
        } else {
            c
        };
        crate::text::push_char(&mut low, lc);
        proof {
            assert(lc == lower_char(c));
            assert(t@.take(i + 1 as int) =~= t@.take(i as int).push(c));
            assert(lower_seq(t@.take(i + 1 as int)) =~= lower_seq(t@.take(i as int)).push(
                lower_char(c),
            ));
        }
        i = i + 1;
    }
    proof {
        assert(t@.take(n as int) =~= t@);
    }
    let gh = String::from_str("github");
    let gl = String::from_str("gitlab");
    if low == gh {
        Some(GitBackend::GitHub)
    } else if low == gl {
        Some(GitBackend::GitLab)
    } else {
        None
    }
}

/// The outcome of reading a TOML configuration text: the backend, the
/// optional explicit remote URL, and the API token.
pub open spec fn spec_config_from_toml(s: Seq<char>) -> Option<
    (GitBackend, Option<Seq<char>>, Seq<char>),
> {
    match toml_backend_of(s) {
        None => None,
        Some((ty, url, token)) => match spec_backend_from(ty) {
            None => None,
            Some(b) => Some((b, url, token)),
        },
    }
}

/// Reads a TOML configuration text: the named backend, the optional explicit
/// remote URL, and the token; `None` when the document has no well-formed
/// backend table or an unknown backend type.
pub fn config_from_toml_text(s: &str) -> (r: Option<(GitBackend, Option<String>, String)>)
    ensures
        ({
            match r {
                None => spec_config_from_toml(s@) is None,
                Some((b, url, token)) => spec_config_from_toml(s@) == Some(
                    (b, crate::review::opt_string_view(url), token@),
                ),
            }
        }),
{
    match read_backend_table(s) {
        None => None,
        Some((ty, url, token)) => match backend_from_str(ty.as_str()) {
            None => None,
            Some(b) => Some((b, url, token)),
        },
    }
}


// ---------------------------------------------------------------------------
// Laws: well-shaped remote URLs parse to their parts
// ---------------------------------------------------------------------------

/// An SSH-form remote URL assembled from its parts.
pub open spec fn ssh_url(
    user: Seq<char>,
    host: Seq<char>,
    owner: Seq<char>,
    repo: Seq<char>,
) -> Seq<char> {
    user + seq!['@'] + host + seq![':'] + owner + seq!['/'] + repo + ".git"@
}

/// An HTTPS-form remote URL assembled from its parts.
pub open spec fn https_url(
    scheme: Seq<char>,
    host: Seq<char>,
    owner: Seq<char>,
    repo: Seq<char>,
) -> Seq<char> {
    scheme + "://"@ + host + seq!['/'] + owner + seq!['/'] + repo + ".git"@
}

/// The backend named in `url` is the one expected.
pub open spec fn names_backend(url: Seq<char>, backend: GitBackend) -> bool {
    match backend {
        GitBackend::GitLab => contains_seq(url, "gitlab"@),
        GitBackend::GitHub => !contains_seq(url, "gitlab"@) && contains_seq(url, "github"@),
    }
}

proof fn lemma_alc_concat(a: Seq<char>, b: Seq<char>)
    requires
        !contains_char(b, ':'),
    ensures
        after_last_colon((a + seq![':']) + b) == b,
    decreases b.len(),
{
    let s = (a + seq![':']) + b;
    if b.len() == 0 {
        assert(s.last() == ':');
        assert(b =~= Seq::<char>::empty());
    } else {
        if b.last() == ':' {
            assert(contains_char(b, ':'));
        }
        assert(s.last() == b.last());
        if contains_char(b.drop_last(), ':') {
            let w = choose|i: int| 0 <= i < b.drop_last().len() && b.drop_last()[i] == ':';
            assert(b[w] == ':');
            assert(contains_char(b, ':'));
        }
        lemma_alc_concat(a, b.drop_last());
        assert(s.drop_last() =~= (a + seq![':']) + b.drop_last());
        assert(b.drop_last().push(b.last()) =~= b);
    }
}

proof fn lemma_split_single(b: Seq<char>)
    requires
        !contains_char(b, '/'),
    ensures
        split_slash(b) == seq![b],
{
    assert forall|m: int| 0 <= m < b.len() implies b[m] != '/' by {
        if b[m] == '/' {
            assert(contains_char(b, '/'));
        }
    }
    crate::text::lemma_first_slash_exact(b, b.len() as int);
}

proof fn lemma_split_two(a: Seq<char>, b: Seq<char>)
    requires
        !contains_char(a, '/'),
        !contains_char(b, '/'),
    ensures
        split_slash((a + seq!['/']) + b) == seq![a, b],
{
    let s = (a + seq!['/']) + b;
    assert forall|m: int| 0 <= m < a.len() implies s[m] != '/' by {
        assert(s[m] == a[m]);
        if a[m] == '/' {
            assert(contains_char(a, '/'));
        }
    }
    assert(s[a.len() as int] == '/');
    crate::text::lemma_first_slash_exact(s, a.len() as int);
    assert(s.take(a.len() as int) =~= a);
    assert(s.skip(a.len() as int + 1) =~= b);
    lemma_split_single(b);
    assert(seq![a] + seq![b] =~= seq![a, b]);
}

proof fn lemma_split_three(a: Seq<char>, b: Seq<char>, c: Seq<char>)
    requires
        !contains_char(a, '/'),
        !contains_char(b, '/'),
        !contains_char(c, '/'),
    ensures
        split_slash((((a + seq!['/']) + b) + seq!['/']) + c) == seq![a, b, c],
{
    let s = (((a + seq!['/']) + b) + seq!['/']) + c;
    assert forall|m: int| 0 <= m < a.len() implies s[m] != '/' by {
        assert(s[m] == a[m]);
        if a[m] == '/' {
            assert(contains_char(a, '/'));
        }
    }
    assert(s[a.len() as int] == '/');
    crate::text::lemma_first_slash_exact(s, a.len() as int);
    assert(s.take(a.len() as int) =~= a);
    assert(s.skip(a.len() as int + 1) =~= (b + seq!['/']) + c);
    lemma_split_two(b, c);
    assert(seq![a] + seq![b, c] =~= seq![a, b, c]);
}

proof fn lemma_remove_git_concat(a: Seq<char>, b: Seq<char>)
    requires
        forall|i: int|
            0 <= i < a.len() && i + 4 <= a.len() + b.len() ==> #[trigger] (a + b).subrange(
                i,
                i + 4,
            ) != ".git"@,
    ensures
        remove_git(a + b) == a + remove_git(b),
    decreases a.len(),
{
    let s = a + b;
    if a.len() == 0 {
        assert(s =~= b);
        assert(a + remove_git(b) =~= remove_git(b));
    } else {
        if s.len() < 4 {
            assert(remove_git(s) == s);
            assert(remove_git(b) == b);
            assert(a + b =~= s);
        } else {
            assert(s.subrange(0, 4) != ".git"@) by {
                assert((a + b).subrange(0int, 0int + 4) != ".git"@);
                assert(s.subrange(0, 4) == (a + b).subrange(0int, 0int + 4));
            }
            assert(s.skip(1) =~= a.drop_first() + b);
            assert forall|i: int|
                0 <= i < a.drop_first().len() && i + 4 <= a.drop_first().len()
                    + b.len() implies #[trigger] (a.drop_first() + b).subrange(i, i + 4)
                != ".git"@ by {
                assert((a + b).subrange(i + 1, (i + 1) + 4) != ".git"@);
                assert((a.drop_first() + b).subrange(i, i + 4) == s.skip(1).subrange(i, i + 4));
                assert(s.skip(1).subrange(i, i + 4) =~= s.subrange(i + 1, i + 5));
                assert(s.subrange(i + 1, i + 5) == (a + b).subrange(i + 1, (i + 1) + 4));
            }
            lemma_remove_git_concat(a.drop_first(), b);
            assert(seq![a[0]] + (a.drop_first() + remove_git(b)) =~= a + remove_git(b));
        }
    }
}

/// A repository name free of `.git` inside keeps exactly its name when the
/// trailing `.git` suffix is removed.
proof fn lemma_remove_git_strip(repo: Seq<char>)
    requires
        !contains_seq(repo, ".git"@),
    ensures
        remove_git(repo + ".git"@) == repo,
{
    reveal_strlit(".git");
    let gd = ".git"@;
    assert forall|i: int|
        0 <= i < repo.len() && i + 4 <= repo.len() + gd.len() implies #[trigger] (repo
        + gd).subrange(i, i + 4) != gd by {
        if (repo + gd).subrange(i, i + 4) == gd {
            if i + 4 <= repo.len() {
                assert(repo.subrange(i, i + 4) =~= (repo + gd).subrange(i, i + 4));
                assert(seq_at(repo, i, gd));
                assert(contains_seq(repo, gd));
            } else {
                let d = repo.len() - i;
                assert((repo + gd).subrange(i, i + 4)[d] == (repo + gd)[i + d]);
                assert((repo + gd)[repo.len() as int] == gd[0]);
                assert(false);
            }
        }
    }
    lemma_remove_git_concat(repo, gd);
    assert(gd.subrange(0, 4) =~= gd);
    assert(gd.skip(4).len() == 0);
    assert(remove_git(gd.skip(4)) == gd.skip(4));
    assert(repo + remove_git(gd) =~= repo);
}

/// Law: every SSH-form URL `user@host:owner/repo.git` whose parts are free
/// of the separators parses to `(owner, repo, backend)`, the repository name
/// stripped of its `.git` suffix.
#[verifier::rlimit(100)]
pub proof fn lemma_parse_ssh_url(
    user: Seq<char>,
    host: Seq<char>,
    owner: Seq<char>,
    repo: Seq<char>,
    backend: GitBackend,
)
    requires
        !contains_char(owner, ':'),
        !contains_char(owner, '/'),
        !contains_char(repo, ':'),
        !contains_char(repo, '/'),
        !contains_seq(repo, ".git"@),
        !contains_seq(ssh_url(user, host, owner, repo), "://"@),
        names_backend(ssh_url(user, host, owner, repo), backend),
    ensures
        spec_parse_url(ssh_url(user, host, owner, repo)) == Ok::<
            (Seq<char>, Seq<char>, GitBackend),
            UrlError,
        >((owner, repo, backend)),
{
    reveal_strlit(".git");
    let gd = ".git"@;
    let url = ssh_url(user, host, owner, repo);
    let ahead = (user + seq!['@']) + host;
    let bpart = ((owner + seq!['/']) + repo) + gd;
    assert(url =~= (ahead + seq![':']) + bpart);
    assert(url[user.len() as int] == '@') by {
        assert(ahead[user.len() as int] == '@');
        assert(url[user.len() as int] == ahead[user.len() as int]);
    }
    assert(contains_char(url, '@'));
    assert(url[ahead.len() as int] == ':');
    assert(contains_char(url, ':'));
    assert(is_ssh_form(url));
    assert(!contains_char(bpart, ':')) by {
        if contains_char(bpart, ':') {
            let w = choose|i: int| 0 <= i < bpart.len() && bpart[i] == ':';
            if w < owner.len() {
                assert(owner[w] == ':');
                assert(contains_char(owner, ':'));
            } else if w == owner.len() {
                assert(bpart[w] == '/');
            } else if w < owner.len() + 1 + repo.len() {
                assert(repo[w - owner.len() - 1] == ':');
                assert(contains_char(repo, ':'));
            } else {
                assert(gd[w - owner.len() - 1 - repo.len()] == ':');
            }
            assert(false);
        }
    }
    lemma_alc_concat(ahead, bpart);
    assert(after_last_colon(url) == bpart);
    assert(!contains_char(repo + gd, '/')) by {
        if contains_char(repo + gd, '/') {
            let w = choose|i: int| 0 <= i < (repo + gd).len() && (repo + gd)[i] == '/';
            if w < repo.len() {
                assert(repo[w] == '/');
                assert(contains_char(repo, '/'));
            } else {
                assert(gd[w - repo.len()] == '/');
            }
            assert(false);
        }
    }
    assert(bpart =~= (owner + seq!['/']) + (repo + gd));
    lemma_split_two(owner, repo + gd);
    assert(split_slash(after_last_colon(url)) == seq![owner, repo + gd]);
    lemma_remove_git_strip(repo);
}

/// Law: every HTTPS-form URL `scheme://host/owner/repo.git` whose parts are
/// free of the separators parses to `(owner, repo, backend)`, the repository
/// name stripped of its `.git` suffix.
#[verifier::rlimit(100)]
pub proof fn lemma_parse_https_url(
    scheme: Seq<char>,
    host: Seq<char>,
    owner: Seq<char>,
    repo: Seq<char>,
    backend: GitBackend,
)
    requires
        !contains_seq(scheme, "://"@),
        !contains_char(host, '/'),
        !contains_char(owner, '/'),
        !contains_char(repo, '/'),
        !contains_seq(repo, ".git"@),
        names_backend(https_url(scheme, host, owner, repo), backend),
    ensures
        spec_parse_url(https_url(scheme, host, owner, repo)) == Ok::<
            (Seq<char>, Seq<char>, GitBackend),
            UrlError,
        >((owner, repo, backend)),
{
    reveal_strlit(".git");
    reveal_strlit("://");
    let gd = ".git"@;
    let sep = "://"@;
    let url = https_url(scheme, host, owner, repo);
    let sl = scheme.len() as int;
    assert(seq_at(url, sl, sep)) by {
        assert(url.subrange(sl, sl + 3) =~= sep);
    }
    assert(contains_seq(url, sep));
    assert(!is_ssh_form(url));
    crate::text::lemma_first_at(url, sep);
    let f = first_at(url, sep);
    assert forall|i: int| 0 <= i < sl implies !seq_at(url, i, sep) by {
        if seq_at(url, i, sep) {
            if i + 3 <= sl {
                assert(scheme.subrange(i, i + 3) =~= url.subrange(i, i + 3));
                assert(seq_at(scheme, i, sep));
                assert(contains_seq(scheme, sep));
            } else {
                let d = sl - i;
                assert(url.subrange(i, i + 3)[d] == url[sl]);
                assert(url[sl] == ':');
                assert(sep[d] == '/');
            }
            assert(false);
        }
    }
    assert(f == sl);
    let rest = (((host + seq!['/']) + owner) + seq!['/']) + (repo + gd);
    assert(url.skip(sl + 3) =~= rest);
    assert(!contains_char(repo + gd, '/')) by {
        if contains_char(repo + gd, '/') {
            let w = choose|i: int| 0 <= i < (repo + gd).len() && (repo + gd)[i] == '/';
            if w < repo.len() {
                assert(repo[w] == '/');
                assert(contains_char(repo, '/'));
            } else {
                assert(gd[w - repo.len()] == '/');
            }
            assert(false);
        }
    }
    lemma_split_three(host, owner, repo + gd);
    assert(split_slash(url.skip(first_at(url, sep) + 3)) == seq![host, owner, repo + gd]);
    lemma_remove_git_strip(repo);
}

} // verus!
