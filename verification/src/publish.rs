//! Publication payloads and endpoints: the GitHub review endpoint, the
//! GitLab note / merge-request / discussion endpoints, the authorization
//! header values, and GitLab's position and line-range encoding of anchored
//! comments.
//!
//! Everything here only builds strings; the HTTP requests themselves are
//! issued by the surrounding program, which hands responses back in.

use crate::json::{enc_opt_string, enc_opt_u32, enc_string, append_json_string, append_opt_u32,
    append_opt_string};
use crate::review::{Comment, CommentView, GitBackend, Review, ReviewView, Side};
use crate::text::{dec_rep, append_dec_u32, push_char};
use vstd::prelude::*;

verus! {

proof fn lemma_assoc3p(a: Seq<char>, b: Seq<char>, c: Seq<char>)
    ensures
        (a + b) + c == a + (b + c),
{
    assert((a + b) + c =~= a + (b + c));
}

// ---------------------------------------------------------------------------
// Path encodings
// ---------------------------------------------------------------------------

/// Percent-encodes every slash, as GitLab wants project paths in URLs.
pub open spec fn enc_slashes(s: Seq<char>) -> Seq<char>
    decreases s.len(),
{
    if s.len() == 0 {
        Seq::empty()
    } else {
        (if s[0] == '/' {
            "%2F"@
        } else {
            seq![s[0]]
        }) + enc_slashes(s.drop_first())
    }
}

proof fn lemma_enc_slashes_snoc(a: Seq<char>, c: char)
    ensures
        enc_slashes(a.push(c)) == enc_slashes(a) + (if c == '/' {
            "%2F"@
        } else {
            seq![c]
        }),
    decreases a.len(),
{
    let pc: Seq<char> = if c == '/' {
        "%2F"@
    } else {
        seq![c]
    };
    if a.len() == 0 {
        assert(a.push(c)[0] == c);
        assert(a.push(c).drop_first() =~= Seq::<char>::empty());
        assert(enc_slashes(Seq::<char>::empty()) =~= Seq::<char>::empty());
        assert(enc_slashes(a.push(c)) =~= pc);
        assert(enc_slashes(a) + pc =~= pc);
    } else {
        lemma_enc_slashes_snoc(a.drop_first(), c);
        assert(a.push(c)[0] == a[0]);
        assert(a.push(c).drop_first() =~= a.drop_first().push(c));
        let h: Seq<char> = if a[0] == '/' {
            "%2F"@
        } else {
            seq![a[0]]
        };
        assert(enc_slashes(a.push(c)) == h + (enc_slashes(a.drop_first()) + pc));
        assert(enc_slashes(a) + pc =~= h + (enc_slashes(a.drop_first()) + pc));
    }
}

/// Appends `s` with every slash percent-encoded.
fn append_enc_slashes(out: &mut String, s: &str)
    ensures
        final(out)@ == old(out)@ + enc_slashes(s@),
{
    let n: usize = s.unicode_len();
    let mut i: usize = 0;
    proof {
        assert(s@.take(0) =~= Seq::<char>::empty());
        assert(enc_slashes(s@.take(0)) =~= Seq::<char>::empty());
        assert(out@ =~= old(out)@ + enc_slashes(s@.take(0)));
    }
    while i < n
        invariant
            i <= n == s@.len(),
            out@ == old(out)@ + enc_slashes(s@.take(i as int)),
        decreases n - i,
    {
        let c = s.get_char(i);
        let ghost pre = out@;
        if c == '/' {
            out.append("%2F");
        } else {
            push_char(out, c);
        }
        proof {
            assert(out@ =~= pre + (if c == '/' {
                "%2F"@
            } else {
                seq![c]
            }));
            lemma_enc_slashes_snoc(s@.take(i as int), c);
            assert(s@.take(i + 1 as int) =~= s@.take(i as int).push(c));
            assert(out@ =~= old(out)@ + enc_slashes(s@.take(i + 1 as int)));
        }
        i = i + 1;
    }
    proof {
        assert(s@.take(n as int) =~= s@);
    }
}

/// Turns every backslash into a forward slash: paths are normalized to
/// forward-slash form before transmission.
pub open spec fn normalize_path(s: Seq<char>) -> Seq<char> {
    s.map_values(
        |c: char|
            if c == '\\' {
                '/'
            } else {
                c
            },
    )
}

/// The normalized (forward-slash) form of a path.
fn normalize_path_exec(s: &str) -> (r: String)
    ensures
        r@ == normalize_path(s@),
{
    let n: usize = s.unicode_len();
    let mut out = String::new();
    let mut i: usize = 0;
    proof {
        assert(out@ =~= normalize_path(s@.take(0)));
    }
    while i < n
        invariant
            i <= n == s@.len(),
            out@ == normalize_path(s@.take(i as int)),
        decreases n - i,
    {
        let c = s.get_char(i);
        let lc: char = if c == '\\' {
            '/'
        } else {
            c
        };
        push_char(&mut out, lc);
        proof {
            assert(s@.take(i + 1 as int) =~= s@.take(i as int).push(c));
            assert(normalize_path(s@.take(i + 1 as int)) =~= normalize_path(
                s@.take(i as int),
            ).push(lc));
        }
        i = i + 1;
    }
    proof {
        assert(s@.take(n as int) =~= s@);
    }
    out
}

/// The URL-encoded `owner/repo` project path of a review.
pub open spec fn gitlab_project(rv: ReviewView) -> Seq<char> {
    enc_slashes(rv.owner + seq!['/'] + rv.repo)
}

// ---------------------------------------------------------------------------
// Endpoints
// ---------------------------------------------------------------------------

/// The endpoint a whole review is posted to: the GitHub pull-request reviews
/// collection, or the GitLab discussions collection on gitlab.com.
pub open spec fn spec_post_url(rv: ReviewView) -> Seq<char> {
    match rv.backend {
        GitBackend::GitHub => "https://api.github.com/repos/"@ + rv.owner + seq!['/'] + rv.repo
            + "/pulls/"@ + dec_rep(rv.pr_number as nat) + "/reviews"@,
        GitBackend::GitLab => "https://gitlab.com/api/v4/projects/"@ + gitlab_project(rv)
            + "/merge_requests/"@ + dec_rep(rv.pr_number as nat) + "/discussions"@,
    }
}

/// The base host of a review's GitLab instance: its configured override, or
/// gitlab.com.
pub open spec fn gitlab_base(rv: ReviewView) -> Seq<char> {
    match rv.backend_url {
        Some(u) => u,
        None => "https://gitlab.com"@,
    }
}

/// The merge-request endpoint itself, fetched to learn the diff anchors.
pub open spec fn spec_gitlab_mr_url(rv: ReviewView) -> Seq<char> {
    gitlab_base(rv) + "/api/v4/projects/"@ + gitlab_project(rv) + "/merge_requests/"@ + dec_rep(
        rv.pr_number as nat,
    )
}

/// The plain-note endpoint, where a non-empty review body goes.
pub open spec fn spec_gitlab_notes_url(rv: ReviewView) -> Seq<char> {
    spec_gitlab_mr_url(rv) + "/notes"@
}

/// The discussions endpoint, where each anchored comment goes.
pub open spec fn spec_gitlab_discussions_url(rv: ReviewView) -> Seq<char> {
    spec_gitlab_mr_url(rv) + "/discussions"@
}

impl Review {
    /// The endpoint this review is published to.
    pub fn post_url(&self) -> (r: String)
        ensures
            r@ == spec_post_url(self@),
    {
        match self.backend {
            GitBackend::GitHub => {
                let mut out = String::new();
                let ghost o = out@;
                let ghost k1 = "https://api.github.com/repos/"@;
                let ghost e1 = self@.owner;
                let ghost k2 = seq!['/'];
                let ghost e2 = self@.repo;
                let ghost k3 = "/pulls/"@;
                let ghost e3 = dec_rep(self@.pr_number as nat);
                out.append("https://api.github.com/repos/");
                out.append(self.owner.as_str());
                proof {
                    lemma_assoc3p(o, k1, e1);
                }
                push_char(&mut out, '/');
                proof {
                    assert(out@ =~= (o + (k1 + e1)) + k2);
                    lemma_assoc3p(o, k1 + e1, k2);
                }
                out.append(self.repo.as_str());
                proof {
                    lemma_assoc3p(o, (k1 + e1) + k2, e2);
                }
                out.append("/pulls/");
                proof {
                    lemma_assoc3p(o, ((k1 + e1) + k2) + e2, k3);
                }
                append_dec_u32(&mut out, self.pr_number);
                proof {
                    lemma_assoc3p(o, (((k1 + e1) + k2) + e2) + k3, e3);
                }
                out.append("/reviews");
                proof {
                    lemma_assoc3p(o, ((((k1 + e1) + k2) + e2) + k3) + e3, "/reviews"@);
                    assert(o =~= Seq::<char>::empty());
                    let whole = ((((k1 + e1) + k2) + e2) + k3) + e3 + "/reviews"@;
                    assert(o + whole =~= whole);
                    assert(spec_post_url(self@) == whole);
                }
                out
            },
            GitBackend::GitLab => {
                let mut out = String::new();
                let ghost o = out@;
                let ghost k1 = "https://gitlab.com/api/v4/projects/"@;
                let ghost e1 = gitlab_project(self@);
                let ghost k2 = "/merge_requests/"@;
                let ghost e2 = dec_rep(self@.pr_number as nat);
                out.append("https://gitlab.com/api/v4/projects/");
                self.append_project(&mut out);
                proof {
                    lemma_assoc3p(o, k1, e1);
                }
                out.append("/merge_requests/");
                proof {
                    lemma_assoc3p(o, k1 + e1, k2);
                }
                append_dec_u32(&mut out, self.pr_number);
                proof {
                    lemma_assoc3p(o, (k1 + e1) + k2, e2);
                }
                out.append("/discussions");
                proof {
                    lemma_assoc3p(o, ((k1 + e1) + k2) + e2, "/discussions"@);
                    assert(o =~= Seq::<char>::empty());
                    let whole = ((k1 + e1) + k2) + e2 + "/discussions"@;
                    assert(o + whole =~= whole);
                    assert(spec_post_url(self@) == whole);
                }
                out
            },
        }
    }

    /// Appends this review's URL-encoded project path.
    fn append_project(&self, out: &mut String)
        ensures
            final(out)@ == old(out)@ + gitlab_project(self@),
    {
        let mut proj = self.owner.clone();
        proj.append("/");
        proj.append(self.repo.as_str());
        proof {
            reveal_strlit("/");
            assert("/"@ =~= seq!['/']);
            assert(proj@ =~= self@.owner + seq!['/'] + self@.repo);
        }
        append_enc_slashes(out, proj.as_str());
    }

    /// The merge-request endpoint of this review's GitLab instance.
    pub fn gitlab_mr_url(&self) -> (r: String)
        ensures
            r@ == spec_gitlab_mr_url(self@),
    {
        let mut out = String::new();
        let ghost o = out@;
        let ghost e0 = gitlab_base(self@);
        let ghost k1 = "/api/v4/projects/"@;
        let ghost e1 = gitlab_project(self@);
        let ghost k2 = "/merge_requests/"@;
        let ghost e2 = dec_rep(self@.pr_number as nat);
        match &self.backend_url {
            Some(u) => {
                out.append(u.as_str());
            },
            None => {
                out.append("https://gitlab.com");
            },
        }
        proof {
            assert(out@ =~= o + e0);
        }
        out.append("/api/v4/projects/");
        proof {
            lemma_assoc3p(o, e0, k1);
        }
        self.append_project(&mut out);
        proof {
            lemma_assoc3p(o, e0 + k1, e1);
        }
        out.append("/merge_requests/");
        proof {
            lemma_assoc3p(o, (e0 + k1) + e1, k2);
        }
        append_dec_u32(&mut out, self.pr_number);
        proof {
            lemma_assoc3p(o, ((e0 + k1) + e1) + k2, e2);
            assert(o =~= Seq::<char>::empty());
            let whole = ((e0 + k1) + e1) + k2 + e2;
            assert(o + whole =~= whole);
            assert(spec_gitlab_mr_url(self@) == whole);
        }
        out
    }

    /// The plain-note endpoint of this review's merge request.
    pub fn gitlab_notes_url(&self) -> (r: String)
        ensures
            r@ == spec_gitlab_notes_url(self@),
    {
        let mut out = self.gitlab_mr_url();
        out.append("/notes");
        out
    }

    /// The discussions endpoint of this review's merge request.
    pub fn gitlab_discussions_url(&self) -> (r: String)
        ensures
            r@ == spec_gitlab_discussions_url(self@),
    {
        let mut out = self.gitlab_mr_url();
        out.append("/discussions");
        out
    }

    /// The plain-note payload carrying the review's summary body.
    pub fn gitlab_note_payload(&self) -> (r: String)
        ensures
            r@ == "{\"body\":"@ + enc_string(self@.body) + seq!['}'],
    {
        let mut out = String::new();
        let ghost o = out@;
        out.append("{\"body\":");
        append_json_string(&mut out, self.body.as_str());
        proof {
            lemma_assoc3p(o, "{\"body\":"@, enc_string(self@.body));
        }
        push_char(&mut out, '}');
        proof {
            let whole = "{\"body\":"@ + enc_string(self@.body) + seq!['}'];
            assert(out@ =~= whole);
        }
        out
    }
}

// ---------------------------------------------------------------------------
// Authorization and credentials
// ---------------------------------------------------------------------------

/// The `Authorization` value GitHub expects.
pub fn github_auth_header(token: &str) -> (r: String)
    ensures
        r@ == "token "@ + token@,
{
    let mut out = String::new();
    out.append("token ");
    out.append(token);
    proof {
        assert(out@ =~= "token "@ + token@);
    }
    out
}

/// The `Authorization` value GitLab expects.
pub fn gitlab_auth_header(token: &str) -> (r: String)
    ensures
        r@ == "Bearer "@ + token@,
{
    let mut out = String::new();
    out.append("Bearer ");
    out.append(token);
    proof {
        assert(out@ =~= "Bearer "@ + token@);
    }
    out
}

impl GitBackend {
    /// The environment variable that supplies this backend's API token.
    pub fn token_env_var(&self) -> (r: &'static str)
        ensures
            match self {
                GitBackend::GitHub => r@ == "GH_REVIEW_API_TOKEN"@,
                GitBackend::GitLab => r@ == "GITLAB_TOKEN"@,
            },
    {
        match self {
            GitBackend::GitHub => "GH_REVIEW_API_TOKEN",
            GitBackend::GitLab => "GITLAB_TOKEN",
        }
    }
}

// ---------------------------------------------------------------------------
// GitLab positions
// ---------------------------------------------------------------------------

/// A comment is multi-line when its start line exists and differs from both
/// the end line and the line right above it: a single-line comment is
/// conventionally stored with its start line one above its end line.
pub open spec fn spec_is_multi_line(c: CommentView) -> bool {
    c.start_line matches Some(sl) && sl != c.line && sl + 1 != c.line
}

/// Whether a comment spans more than one line.
pub fn comment_is_multi_line(c: &Comment) -> (r: bool)
    ensures
        r == spec_is_multi_line(c@),
{
    match c.start_line {
        None => false,
        Some(sl) => sl != c.line && !(c.line > 0 && sl == c.line - 1),
    }
}

/// The first and last anchored line of a comment: its span for a multi-line
/// comment, its end line twice otherwise.
pub open spec fn spec_span(c: CommentView) -> (u32, u32) {
    if spec_is_multi_line(c) {
        (c.start_line->0, c.line)
    } else {
        (c.line, c.line)
    }
}

pub open spec fn tok_new() -> Seq<char> {
    seq!['"', 'n', 'e', 'w', '"']
}

pub open spec fn tok_old() -> Seq<char> {
    seq!['"', 'o', 'l', 'd', '"']
}

/// The `type` of a line-range endpoint for a side of the diff.
pub open spec fn side_type(sd: Side) -> Seq<char> {
    match sd {
        Side::RIGHT => tok_new(),
        Side::LEFT => tok_old(),
    }
}

/// A line code: the comment's path as captured, an underscore, and a line
/// number.
pub open spec fn spec_line_code(path: Seq<char>, line: u32) -> Seq<char> {
    path + seq!['_'] + dec_rep(line as nat)
}

/// The `line_range` member of a multi-line position, with its leading comma.
pub open spec fn spec_line_range(c: CommentView) -> Seq<char> {
    ",\"line_range\":{\"start\":{\"line_code\":"@ + enc_string(
        spec_line_code(c.path, spec_span(c).0),
    ) + ",\"type\":"@ + side_type(c.side) + "},\"end\":{\"line_code\":"@ + enc_string(
        spec_line_code(c.path, spec_span(c).1),
    ) + ",\"type\":"@ + side_type(c.side) + "}}"@
}

/// A GitLab position object: the three diff anchors, then exactly one of the
/// new or old path/line pairs populated by the comment's side, and a line
/// range only for a multi-line comment.
pub open spec fn spec_position_json(
    c: CommentView,
    base_sha: Seq<char>,
    start_sha: Seq<char>,
    head_sha: Seq<char>,
) -> Seq<char> {
    let npath = normalize_path(c.path);
    let new_path: Option<Seq<char>> = if c.side == Side::RIGHT {
        Some(npath)
    } else {
        None
    };
    let old_path: Option<Seq<char>> = if c.side == Side::LEFT {
        Some(npath)
    } else {
        None
    };
    let new_line: Option<u32> = if c.side == Side::RIGHT {
        Some(spec_span(c).0)
    } else {
        None
    };
    let old_line: Option<u32> = if c.side == Side::LEFT {
        Some(spec_span(c).0)
    } else {
        None
    };
    "{\"position_type\":\"text\",\"base_sha\":"@ + enc_string(base_sha) + ",\"start_sha\":"@
        + enc_string(start_sha) + ",\"head_sha\":"@ + enc_string(head_sha) + ",\"new_path\":"@
        + enc_opt_string(new_path) + ",\"old_path\":"@ + enc_opt_string(old_path)
        + ",\"new_line\":"@ + enc_opt_u32(new_line) + ",\"old_line\":"@ + enc_opt_u32(old_line) + (
    if spec_is_multi_line(c) {
        spec_line_range(c)
    } else {
        Seq::empty()
    }) + seq!['}']
}

/// One discussion payload: the comment's body and its position.
pub open spec fn spec_discussion_payload(
    c: CommentView,
    base_sha: Seq<char>,
    start_sha: Seq<char>,
    head_sha: Seq<char>,
) -> Seq<char> {
    "{\"body\":"@ + enc_string(c.body) + ",\"position\":"@ + spec_position_json(
        c,
        base_sha,
        start_sha,
        head_sha,
    ) + seq!['}']
}

/// Appends a line code.
fn append_line_code(out: &mut String, path: &str, line: u32)
    ensures
        final(out)@ == old(out)@ + spec_line_code(path@, line),
{
    let ghost o = out@;
    out.append(path);
    push_char(out, '_');
    append_dec_u32(out, line);
    proof {
        assert(out@ =~= o + spec_line_code(path@, line));
    }
}

/// Appends a side's line-range `type` token.
fn append_side_type(out: &mut String, sd: Side)
    ensures
        final(out)@ == old(out)@ + side_type(sd),
{
    match sd {
        Side::RIGHT => {
            out.append("\"new\"");
            proof {
                reveal_strlit("\"new\"");
                assert("\"new\""@ =~= tok_new());
            }
        },
        Side::LEFT => {
            out.append("\"old\"");
            proof {
                reveal_strlit("\"old\"");
                assert("\"old\""@ =~= tok_old());
            }
        },
    }
}

/// The span of a comment.
fn span_of(c: &Comment) -> (r: (u32, u32))
    ensures
        r == spec_span(c@),
{
    if comment_is_multi_line(c) {
        match c.start_line {
            Some(sl) => (sl, c.line),
            None => (c.line, c.line),
        }
    } else {
        (c.line, c.line)
    }
}

/// Appends the `line_range` member of a multi-line comment.
fn append_line_range(out: &mut String, c: &Comment)
    requires
        spec_is_multi_line(c@),
    ensures
        final(out)@ == old(out)@ + spec_line_range(c@),
{
    let ghost o = out@;
    let ghost k1 = ",\"line_range\":{\"start\":{\"line_code\":"@;
    let ghost e1 = enc_string(spec_line_code(c@.path, spec_span(c@).0));
    let ghost k2 = ",\"type\":"@;
    let ghost e2 = side_type(c@.side);
    let ghost k3 = "},\"end\":{\"line_code\":"@;
    let ghost e3 = enc_string(spec_line_code(c@.path, spec_span(c@).1));
    let (ls, le) = span_of(c);
    let mut start_code = String::new();
    append_line_code(&mut start_code, c.path.as_str(), ls);
    let mut end_code = String::new();
    append_line_code(&mut end_code, c.path.as_str(), le);
    proof {
        assert(start_code@ =~= spec_line_code(c@.path, spec_span(c@).0));
        assert(end_code@ =~= spec_line_code(c@.path, spec_span(c@).1));
    }
    out.append(",\"line_range\":{\"start\":{\"line_code\":");
    append_json_string(out, start_code.as_str());
    proof {
        lemma_assoc3p(o, k1, e1);
    }
    out.append(",\"type\":");
    proof {
        lemma_assoc3p(o, k1 + e1, k2);
    }
    append_side_type(out, c.side);
    proof {
        lemma_assoc3p(o, (k1 + e1) + k2, e2);
    }
    out.append("},\"end\":{\"line_code\":");
    proof {
        lemma_assoc3p(o, ((k1 + e1) + k2) + e2, k3);
    }
    append_json_string(out, end_code.as_str());
    proof {
        lemma_assoc3p(o, (((k1 + e1) + k2) + e2) + k3, e3);
    }
    out.append(",\"type\":");
    proof {
        lemma_assoc3p(o, ((((k1 + e1) + k2) + e2) + k3) + e3, k2);
    }
    append_side_type(out, c.side);
    proof {
        lemma_assoc3p(o, (((((k1 + e1) + k2) + e2) + k3) + e3) + k2, e2);
    }
    out.append("}}");
    proof {
        let p = ((((((k1 + e1) + k2) + e2) + k3) + e3) + k2) + e2;
        lemma_assoc3p(o, p, "}}"@);
        assert(spec_line_range(c@) == p + "}}"@);
    }
}

/// Builds the GitLab position object anchoring `c` at the given diff SHAs.
pub fn gitlab_position_json(
    c: &Comment,
    base_sha: &str,
    start_sha: &str,
    head_sha: &str,
) -> (r: String)
    ensures
        r@ == spec_position_json(c@, base_sha@, start_sha@, head_sha@),
{
    let ghost k1 = "{\"position_type\":\"text\",\"base_sha\":"@;
    let ghost e1 = enc_string(base_sha@);
    let ghost k2 = ",\"start_sha\":"@;
    let ghost e2 = enc_string(start_sha@);
    let ghost k3 = ",\"head_sha\":"@;
    let ghost e3 = enc_string(head_sha@);
    let ghost k4 = ",\"new_path\":"@;
    let ghost k5 = ",\"old_path\":"@;
    let ghost k6 = ",\"new_line\":"@;
    let ghost k7 = ",\"old_line\":"@;
    let (ls, _le) = span_of(c);
    let npath = normalize_path_exec(c.path.as_str());
    let is_right = c.side == Side::RIGHT;
    let new_path: Option<String> = if is_right {
        Some(npath.clone())
    } else {
        None
    };
    let old_path: Option<String> = if is_right {
        None
    } else {
        Some(npath)
    };
    let new_line: Option<u32> = if is_right {
        Some(ls)
    } else {
        None
    };
    let old_line: Option<u32> = if is_right {
        None
    } else {
        Some(ls)
    };
    let ghost e4 = enc_opt_string(crate::review::opt_string_view(new_path));
    let ghost e5 = enc_opt_string(crate::review::opt_string_view(old_path));
    let ghost e6 = enc_opt_u32(new_line);
    let ghost e7 = enc_opt_u32(old_line);
    let mut out = String::new();
    let ghost o = out@;
    out.append("{\"position_type\":\"text\",\"base_sha\":");
    append_json_string(&mut out, base_sha);
    proof {
        lemma_assoc3p(o, k1, e1);
    }
    out.append(",\"start_sha\":");
    proof {
        lemma_assoc3p(o, k1 + e1, k2);
    }
    append_json_string(&mut out, start_sha);
    proof {
        lemma_assoc3p(o, (k1 + e1) + k2, e2);
    }
    out.append(",\"head_sha\":");
    proof {
        lemma_assoc3p(o, ((k1 + e1) + k2) + e2, k3);
    }
    append_json_string(&mut out, head_sha);
    proof {
        lemma_assoc3p(o, (((k1 + e1) + k2) + e2) + k3, e3);
    }
    out.append(",\"new_path\":");
    proof {
        lemma_assoc3p(o, ((((k1 + e1) + k2) + e2) + k3) + e3, k4);
    }
    append_opt_string(&mut out, &new_path);
    proof {
        lemma_assoc3p(o, (((((k1 + e1) + k2) + e2) + k3) + e3) + k4, e4);
    }
    out.append(",\"old_path\":");
    proof {
        lemma_assoc3p(o, ((((((k1 + e1) + k2) + e2) + k3) + e3) + k4) + e4, k5);
    }
    append_opt_string(&mut out, &old_path);
    proof {
        lemma_assoc3p(o, (((((((k1 + e1) + k2) + e2) + k3) + e3) + k4) + e4) + k5, e5);
    }
    out.append(",\"new_line\":");
    proof {
        lemma_assoc3p(o, ((((((((k1 + e1) + k2) + e2) + k3) + e3) + k4) + e4) + k5) + e5, k6);
    }
    append_opt_u32(&mut out, &new_line);
    proof {
        lemma_assoc3p(
            o,
            (((((((((k1 + e1) + k2) + e2) + k3) + e3) + k4) + e4) + k5) + e5) + k6,
            e6,
        );
    }
    out.append(",\"old_line\":");
    proof {
        lemma_assoc3p(
            o,
            ((((((((((k1 + e1) + k2) + e2) + k3) + e3) + k4) + e4) + k5) + e5) + k6) + e6,
            k7,
        );
    }
    append_opt_u32(&mut out, &old_line);
    proof {
        lemma_assoc3p(
            o,
            (((((((((((k1 + e1) + k2) + e2) + k3) + e3) + k4) + e4) + k5) + e5) + k6) + e6) + k7,
            e7,
        );
    }
    let ghost p14 = ((((((((((((k1 + e1) + k2) + e2) + k3) + e3) + k4) + e4) + k5) + e5) + k6)
        + e6) + k7) + e7;
    let ghost range: Seq<char> = if spec_is_multi_line(c@) {
        spec_line_range(c@)
    } else {
        Seq::empty()
    };
    if comment_is_multi_line(c) {
        append_line_range(&mut out, c);
        proof {
            lemma_assoc3p(o, p14, range);
        }
    } else {
        proof {
            assert(p14 + range =~= p14);
        }
    }
    push_char(&mut out, '}');
    proof {
        lemma_assoc3p(o, p14 + range, seq!['}']);
        assert(o =~= Seq::<char>::empty());
        let whole = (p14 + range) + seq!['}'];
        assert(out@ =~= (o + (p14 + range)) + seq!['}']);
        assert(o + whole =~= whole);
        assert(spec_position_json(c@, base_sha@, start_sha@, head_sha@) == whole);
    }
    out
}

/// Builds one discussion payload: the comment's body and its position.
pub fn gitlab_discussion_payload(
    c: &Comment,
    base_sha: &str,
    start_sha: &str,
    head_sha: &str,
) -> (r: String)
    ensures
        r@ == spec_discussion_payload(c@, base_sha@, start_sha@, head_sha@),
{
    let ghost k1 = "{\"body\":"@;
    let ghost e1 = enc_string(c@.body);
    let ghost k2 = ",\"position\":"@;
    let ghost e2 = spec_position_json(c@, base_sha@, start_sha@, head_sha@);
    let mut out = String::new();
    let ghost o = out@;
    out.append("{\"body\":");
    append_json_string(&mut out, c.body.as_str());
    proof {
        lemma_assoc3p(o, k1, e1);
    }
    out.append(",\"position\":");
    proof {
        lemma_assoc3p(o, k1 + e1, k2);
    }
    let pos = gitlab_position_json(c, base_sha, start_sha, head_sha);
    out.append(pos.as_str());
    proof {
        lemma_assoc3p(o, (k1 + e1) + k2, e2);
    }
    push_char(&mut out, '}');
    proof {
        lemma_assoc3p(o, ((k1 + e1) + k2) + e2, seq!['}']);
        assert(o =~= Seq::<char>::empty());
        let whole = ((k1 + e1) + k2) + e2 + seq!['}'];
        assert(o + whole =~= whole);
        assert(spec_discussion_payload(c@, base_sha@, start_sha@, head_sha@) == whole);
    }
    out
}

// ---------------------------------------------------------------------------
// The diff anchors of a merge request
// ---------------------------------------------------------------------------

/// The three diff SHAs of a merge-request document, each the empty string
/// when absent, or nothing when the document is not JSON at all.
pub uninterp spec fn diff_refs_of(s: Seq<char>) -> Option<(Seq<char>, Seq<char>, Seq<char>)>;

pub open spec fn refs_view(r: Option<(String, String, String)>) -> Option<
    (Seq<char>, Seq<char>, Seq<char>),
> {
    match r {
        None => None,
        Some((a, b, c)) => Some((a@, b@, c@)),
    }
}

/// Relies on serde_json::from_str and Value::{index, as_str}: reads
/// `diff_refs.{base_sha, start_sha, head_sha}` out of a merge-request
/// document, each falling back to the empty string when absent; the result
/// depends on the text alone.
#[verifier::external_body]
fn read_diff_refs(s: &str) -> (r: Option<(String, String, String)>)
    ensures
        refs_view(r) == diff_refs_of(s@),
{
    let v: serde_json::Value = serde_json::from_str(s).ok()?;
    let base = v["diff_refs"]["base_sha"].as_str().unwrap_or("").to_string();
    let start = v["diff_refs"]["start_sha"].as_str().unwrap_or("").to_string();
    let head = v["diff_refs"]["head_sha"].as_str().unwrap_or("").to_string();
    Some((base, start, head))
}

impl Review {
    /// Builds the discussion payload of every comment of this review,
    /// anchored to the diff SHAs carried by the merge-request document
    /// `mr_response`; nothing when that document is not JSON.
    pub fn gitlab_discussion_payloads(&self, mr_response: &str) -> (r: Option<Vec<String>>)
        ensures
            match r {
                None => diff_refs_of(mr_response@) is None,
                Some(v) => diff_refs_of(mr_response@) matches Some((b, st, h)) && v@.len()
                    == self@.comments.len() && forall|k: int|
                    0 <= k < v@.len() ==> v@[k]@ == spec_discussion_payload(
                        #[trigger] self@.comments[k],
                        b,
                        st,
                        h,
                    ),
            },
    {
        let refs = read_diff_refs(mr_response);
        match refs {
            None => None,
            Some((base, start, head)) => {
                let mut out: Vec<String> = Vec::new();
                let count = self.comments.len();
                let mut i: usize = 0;
                while i < count
                    invariant
                        i <= count == self.comments@.len(),
                        out@.len() == i,
                        refs_view(Some((base, start, head))) == diff_refs_of(mr_response@),
                        forall|k: int|
                            0 <= k < i ==> out@[k]@ == spec_discussion_payload(
                                #[trigger] crate::review::comments_view(self.comments@)[k],
                                base@,
                                start@,
                                head@,
                            ),
                    decreases count - i,
                {
                    let p = gitlab_discussion_payload(
                        &self.comments[i],
                        base.as_str(),
                        start.as_str(),
                        head.as_str(),
                    );
                    out.push(p);
                    proof {
                        assert(crate::review::comments_view(self.comments@)[i as int]
                            == self.comments@[i as int]@);
                    }
                    i = i + 1;
                }
                Some(out)
            },
        }
    }
}

} // verus!
