//! The review data model: backends, diff sides, comments anchored to diff
//! positions, and the `Review` value that owns them, together with the
//! in-memory editing operations (add, look up by position, commit a draft,
//! delete) and the laws those operations obey.

use vstd::prelude::*;

verus! {

use vstd::std_specs::cmp::PartialEqSpec;

/// The code-hosting backend a review is published to.
#[derive(Clone, Copy, Debug, PartialEq, Eq, Structural)]
pub enum GitBackend {
    GitHub,
    GitLab,
}

/// Which half of a diff a line number refers to: `LEFT` is the base (old)
/// revision, `RIGHT` the head (new) revision.
#[derive(Clone, Copy, Debug, PartialEq, Eq, Structural)]
pub enum Side {
    RIGHT,
    LEFT,
}

/// Why an editing operation on a review was refused.
#[derive(Clone, Copy, Debug, PartialEq, Eq, Structural)]
pub enum EditError {
    /// A draft comment is already being authored.
    CommentInProgress,
    /// There is no draft comment to commit.
    NoInProgressComment,
    /// A commit target named a comment index that does not exist.
    IndexOutOfRange,
    /// No structurally equal comment was found to delete.
    CommentNotFound,
}

/// Where a committed draft goes: appended as a new comment, or overwriting
/// the comment at a given index.
#[derive(Clone, Copy, Debug, PartialEq, Eq, Structural)]
pub enum CommitTarget {
    New,
    ExistingAt(usize),
}

/// One free-text comment anchored to a line span of one file, on one side of
/// the diff.
#[derive(Clone, Debug)]
pub struct Comment {
    pub body: String,
    pub line: u32,
    pub path: String,
    pub side: Side,
    pub start_line: Option<u32>,
    pub start_side: Option<Side>,
}

/// The mathematical value of a `Comment`.
#[verifier::ext_equal]
pub struct CommentView {
    pub body: Seq<char>,
    pub line: u32,
    pub path: Seq<char>,
    pub side: Side,
    pub start_line: Option<u32>,
    pub start_side: Option<Side>,
}

impl View for Comment {
    type V = CommentView;

    open spec fn view(&self) -> CommentView {
        CommentView {
            body: self.body@,
            line: self.line,
            path: self.path@,
            side: self.side,
            start_line: self.start_line,
            start_side: self.start_side,
        }
    }
}

impl Comment {
    pub fn new(
        body: String,
        line: u32,
        path: String,
        side: Side,
        start_line: Option<u32>,
        start_side: Option<Side>,
    ) -> (c: Comment)
        ensures
            c@ == (CommentView {
                body: body@,
                line: line,
                path: path@,
                side: side,
                start_line: start_line,
                start_side: start_side,
            }),
    {
        Comment { body, line, path, side, start_line, start_side }
    }
}

impl PartialEq for Comment {
    /// Structural equality: every field, including the body text.
    fn eq(&self, other: &Comment) -> (r: bool) {
        let sides_eq = self.side == other.side;
        let start_line_eq = match (self.start_line, other.start_line) {
            (None, None) => true,
            (Some(a), Some(b)) => a == b,
            _ => false,
        };
        let start_side_eq = match (self.start_side, other.start_side) {
            (None, None) => true,
            (Some(a), Some(b)) => a == b,
            _ => false,
        };
        self.body == other.body && self.line == other.line && self.path == other.path && sides_eq
            && start_line_eq && start_side_eq
    }
}

impl vstd::std_specs::cmp::PartialEqSpecImpl for Comment {
    open spec fn obeys_eq_spec() -> bool {
        true
    }

    open spec fn eq_spec(&self, other: &Comment) -> bool {
        self@ == other@
    }
}

/// One review of one pull/merge request: a summary body plus an ordered list
/// of anchored comments, and at most one draft comment being authored.
#[derive(Debug)]
pub struct Review {
    pub owner: String,
    pub repo: String,
    pub backend: GitBackend,
    pub backend_url: Option<String>,
    pub pr_number: u32,
    pub body: String,
    pub comments: Vec<Comment>,
    pub in_progress_comment: Option<Comment>,
}

/// The mathematical value of a `Review`.
#[verifier::ext_equal]
pub struct ReviewView {
    pub owner: Seq<char>,
    pub repo: Seq<char>,
    pub backend: GitBackend,
    pub backend_url: Option<Seq<char>>,
    pub pr_number: u32,
    pub body: Seq<char>,
    pub comments: Seq<CommentView>,
    pub in_progress_comment: Option<CommentView>,
}

pub open spec fn opt_string_view(o: Option<String>) -> Option<Seq<char>> {
    match o {
        None => None,
        Some(s) => Some(s@),
    }
}

pub open spec fn opt_comment_view(o: Option<Comment>) -> Option<CommentView> {
    match o {
        None => None,
        Some(c) => Some(c@),
    }
}

pub open spec fn comments_view(cs: Seq<Comment>) -> Seq<CommentView> {
    cs.map_values(|c: Comment| c@)
}

impl View for Review {
    type V = ReviewView;

    open spec fn view(&self) -> ReviewView {
        ReviewView {
            owner: self.owner@,
            repo: self.repo@,
            backend: self.backend,
            backend_url: opt_string_view(self.backend_url),
            pr_number: self.pr_number,
            body: self.body@,
            comments: comments_view(self.comments@),
            in_progress_comment: opt_comment_view(self.in_progress_comment),
        }
    }
}

impl PartialEq for Review {
    /// Structural equality: every field, the comment list elementwise.
    fn eq(&self, other: &Review) -> (r: bool) {
        let url_eq = match (&self.backend_url, &other.backend_url) {
            (None, None) => true,
            (Some(a), Some(b)) => *a == *b,
            _ => false,
        };
        let draft_eq = match (&self.in_progress_comment, &other.in_progress_comment) {
            (None, None) => true,
            (Some(a), Some(b)) => *a == *b,
            _ => false,
        };
        let r = self.owner == other.owner && self.repo == other.repo && self.backend
            == other.backend && url_eq && self.pr_number == other.pr_number && self.body
            == other.body && self.comments == other.comments && draft_eq;
        proof {
            if r {
                assert(comments_view(self.comments@) =~= comments_view(other.comments@)) by {
                    assert forall|i: int|
                        0 <= i < self.comments@.len() implies comments_view(self.comments@)[i]
                        == comments_view(other.comments@)[i] by {
                        assert(self.comments@[i]@ == other.comments@[i]@);
                    }
                }
                assert(self@ =~= other@);
            } else {
                if self@ == other@ {
                    assert(comments_view(self.comments@).len() == self.comments@.len());
                    assert(comments_view(other.comments@).len() == other.comments@.len());
                    assert forall|i: int|
                        0 <= i < self.comments@.len() implies self.comments@[i].eq_spec(
                        &other.comments@[i],
                    ) by {
                        assert(comments_view(self.comments@)[i] == comments_view(
                            other.comments@,
                        )[i]);
                    }
                    assert(false);
                }
            }
        }
        r
    }
}

impl vstd::std_specs::cmp::PartialEqSpecImpl for Review {
    open spec fn obeys_eq_spec() -> bool {
        true
    }

    open spec fn eq_spec(&self, other: &Review) -> bool {
        self@ == other@
    }
}

// ---------------------------------------------------------------------------
// Position lookup
// ---------------------------------------------------------------------------

/// Does the comment anchor at `path` and cover `line`: either exactly its end
/// line, or inside the `start_line ..= line` span when a start line exists.
pub open spec fn comment_matches_at(c: CommentView, path: Seq<char>, line: u32) -> bool {
    c.path == path && (c.line == line || (c.start_line matches Some(sl) && sl <= line && line
        <= c.line))
}

/// First comment at or after index `i` that covers `(path, line)`.
pub open spec fn find_at_from(cs: Seq<CommentView>, path: Seq<char>, line: u32, i: int) -> Option<
    (int, CommentView),
>
    decreases cs.len() - i,
{
    if i < 0 || i >= cs.len() {
        None
    } else if comment_matches_at(cs[i], path, line) {
        Some((i, cs[i]))
    } else {
        find_at_from(cs, path, line, i + 1)
    }
}

/// The first comment of the review, in list order, that covers `(path,
/// line)`.
pub open spec fn spec_find_at(rv: ReviewView, path: Seq<char>, line: u32) -> Option<
    (int, CommentView),
> {
    find_at_from(rv.comments, path, line, 0)
}

proof fn lemma_find_at_from_props(cs: Seq<CommentView>, path: Seq<char>, line: u32, k: int)
    requires
        0 <= k <= cs.len(),
    ensures
        match find_at_from(cs, path, line, k) {
            Some((i, c)) => k <= i < cs.len() && c == cs[i] && comment_matches_at(c, path, line)
                && forall|m: int| k <= m < i ==> !comment_matches_at(#[trigger] cs[m], path, line),
            None => forall|m: int|
                k <= m < cs.len() ==> !comment_matches_at(#[trigger] cs[m], path, line),
        },
    decreases cs.len() - k,
{
    if k < cs.len() && !comment_matches_at(cs[k], path, line) {
        lemma_find_at_from_props(cs, path, line, k + 1);
    }
}

/// Law: `spec_find_at` returns the first comment, in list order, whose span
/// covers the requested position, and returns nothing exactly when no
/// comment covers it.
pub proof fn lemma_find_at_first_match(rv: ReviewView, path: Seq<char>, line: u32)
    ensures
        match spec_find_at(rv, path, line) {
            Some((i, c)) => 0 <= i < rv.comments.len() && c == rv.comments[i]
                && comment_matches_at(c, path, line) && forall|m: int|
                0 <= m < i ==> !comment_matches_at(#[trigger] rv.comments[m], path, line),
            None => forall|m: int|
                0 <= m < rv.comments.len() ==> !comment_matches_at(
                    #[trigger] rv.comments[m],
                    path,
                    line,
                ),
        },
{
    lemma_find_at_from_props(rv.comments, path, line, 0);
}

// ---------------------------------------------------------------------------
// Deletion by structural equality
// ---------------------------------------------------------------------------

/// Index of the first comment at or after `i` structurally equal to `c`.
pub open spec fn find_equal_from(cs: Seq<CommentView>, c: CommentView, i: int) -> Option<int>
    decreases cs.len() - i,
{
    if i < 0 || i >= cs.len() {
        None
    } else if cs[i] == c {
        Some(i)
    } else {
        find_equal_from(cs, c, i + 1)
    }
}

proof fn lemma_find_equal_from_props(cs: Seq<CommentView>, c: CommentView, k: int)
    requires
        0 <= k <= cs.len(),
    ensures
        match find_equal_from(cs, c, k) {
            Some(i) => k <= i < cs.len() && cs[i] == c && forall|m: int|
                k <= m < i ==> #[trigger] cs[m] != c,
            None => forall|m: int| k <= m < cs.len() ==> #[trigger] cs[m] != c,
        },
    decreases cs.len() - k,
{
    if k < cs.len() && cs[k] != c {
        lemma_find_equal_from_props(cs, c, k + 1);
    }
}

/// Removing a comment: the first structurally equal entry leaves the list,
/// or the review is unchanged and the operation fails.
pub open spec fn spec_delete_comment(rv: ReviewView, c: CommentView) -> (ReviewView, Result<
    (),
    EditError,
>) {
    match find_equal_from(rv.comments, c, 0) {
        Some(i) => (ReviewView { comments: rv.comments.remove(i), ..rv }, Ok(())),
        None => (rv, Err(EditError::CommentNotFound)),
    }
}

// ---------------------------------------------------------------------------
// Draft comments
// ---------------------------------------------------------------------------

/// Starting a draft: refused while another draft exists, otherwise an
/// empty-bodied comment at the given anchor becomes the draft.
pub open spec fn spec_begin_comment(
    rv: ReviewView,
    path: Seq<char>,
    side: Side,
    line: u32,
    start_line: Option<u32>,
    start_side: Option<Side>,
) -> (ReviewView, Result<(), EditError>) {
    if rv.in_progress_comment is Some {
        (rv, Err(EditError::CommentInProgress))
    } else {
        let draft = CommentView {
            body: Seq::empty(),
            line: line,
            path: path,
            side: side,
            start_line: start_line,
            start_side: start_side,
        };
        (ReviewView { in_progress_comment: Some(draft), ..rv }, Ok(()))
    }
}

/// Committing the draft with its final body text: appended as a new comment,
/// or overwriting an existing index; the draft is cleared on success.
pub open spec fn spec_commit_comment(
    rv: ReviewView,
    body: Seq<char>,
    target: CommitTarget,
) -> (ReviewView, Result<(), EditError>) {
    match rv.in_progress_comment {
        None => (rv, Err(EditError::NoInProgressComment)),
        Some(draft) => {
            let done = CommentView { body: body, ..draft };
            match target {
                CommitTarget::New => (
                    ReviewView {
                        comments: rv.comments.push(done),
                        in_progress_comment: None,
                        ..rv
                    },
                    Ok(()),
                ),
                CommitTarget::ExistingAt(i) => {
                    if i < rv.comments.len() {
                        (
                            ReviewView {
                                comments: rv.comments.update(i as int, done),
                                in_progress_comment: None,
                                ..rv
                            },
                            Ok(()),
                        )
                    } else {
                        (rv, Err(EditError::IndexOutOfRange))
                    }
                },
            }
        },
    }
}

/// Law: while a draft comment exists, `begin_comment` fails with
/// `CommentInProgress` and changes nothing; in particular a second
/// `begin_comment` directly after a successful one fails this way.
pub proof fn lemma_begin_comment_exclusive(
    rv: ReviewView,
    path1: Seq<char>,
    side1: Side,
    line1: u32,
    start_line1: Option<u32>,
    start_side1: Option<Side>,
    path2: Seq<char>,
    side2: Side,
    line2: u32,
    start_line2: Option<u32>,
    start_side2: Option<Side>,
)
    requires
        spec_begin_comment(rv, path1, side1, line1, start_line1, start_side1).1 is Ok,
    ensures
        ({
            let mid = spec_begin_comment(rv, path1, side1, line1, start_line1, start_side1).0;
            spec_begin_comment(mid, path2, side2, line2, start_line2, start_side2) == (
                mid,
                Err::<(), EditError>(EditError::CommentInProgress),
            )
        }),
{
}

/// Law: when exactly one comment of the review covers `(path, line)` and it
/// is the one that lookup returns, deleting that comment succeeds and a
/// second lookup at the same position finds nothing.
pub proof fn lemma_delete_then_find_none(
    rv: ReviewView,
    path: Seq<char>,
    line: u32,
    i: int,
    c: CommentView,
)
    requires
        spec_find_at(rv, path, line) == Some((i, c)),
        forall|j: int|
            0 <= j < rv.comments.len() && j != i ==> !comment_matches_at(
                #[trigger] rv.comments[j],
                path,
                line,
            ),
    ensures
        spec_delete_comment(rv, c).1 == Ok::<(), EditError>(()),
        spec_find_at(spec_delete_comment(rv, c).0, path, line) is None,
{
    lemma_find_at_from_props(rv.comments, path, line, 0);
    assert(rv.comments[i] == c);
    assert forall|m: int| 0 <= m < i implies #[trigger] rv.comments[m] != c by {
        if rv.comments[m] == c {
            assert(comment_matches_at(rv.comments[m], path, line));
        }
    }
    lemma_find_equal_from_props(rv.comments, c, 0);
    assert(find_equal_from(rv.comments, c, 0) == Some(i));
    let after = spec_delete_comment(rv, c).0;
    assert(after.comments =~= rv.comments.remove(i));
    assert forall|m: int| 0 <= m < after.comments.len() implies !comment_matches_at(
        #[trigger] after.comments[m],
        path,
        line,
    ) by {
        if m < i {
            assert(after.comments[m] == rv.comments[m]);
        } else {
            assert(after.comments[m] == rv.comments[m + 1]);
        }
    }
    lemma_find_at_from_props(after.comments, path, line, 0);
}

// ---------------------------------------------------------------------------
// Executable operations
// ---------------------------------------------------------------------------

impl Review {
    pub fn new(
        owner: String,
        repo: String,
        backend: GitBackend,
        backend_url: Option<String>,
        pr_number: u32,
        body: String,
        comments: Vec<Comment>,
    ) -> (r: Review)
        ensures
            r@ == (ReviewView {
                owner: owner@,
                repo: repo@,
                backend: backend,
                backend_url: opt_string_view(backend_url),
                pr_number: pr_number,
                body: body@,
                comments: comments_view(comments@),
                in_progress_comment: None,
            }),
    {
        Review {
            owner,
            repo,
            backend,
            backend_url,
            pr_number,
            body,
            comments,
            in_progress_comment: None,
        }
    }

    /// Appends `comment` to the end of the comment list.
    pub fn add_comment(&mut self, comment: Comment)
        ensures
            final(self)@ == (ReviewView {
                comments: old(self)@.comments.push(comment@),
                ..old(self)@
            }),
    {
        self.comments.push(comment);
        proof {
            assert(comments_view(self.comments@) =~= comments_view(old(self).comments@).push(
                comment@,
            ));
        }
    }

    /// Replaces the review's summary body.
    pub fn set_body(&mut self, body: String)
        ensures
            final(self)@ == (ReviewView { body: body@, ..old(self)@ }),
    {
        self.body = body;
    }

    /// Returns the first comment, in list order, whose anchor covers the
    /// given file path and line.
    pub fn get_comment_at_position(&self, path: String, line: u32) -> (r: Option<(usize, &Comment)>)
        ensures
            match r {
                Some((i, c)) => spec_find_at(self@, path@, line) == Some((i as int, c@)),
                None => spec_find_at(self@, path@, line) is None,
            },
    {
        let n = self.comments.len();
        let mut i: usize = 0;
        while i < n
            invariant
                n == self.comments@.len(),
                i <= n,
                forall|m: int|
                    0 <= m < i ==> !comment_matches_at(
                        #[trigger] comments_view(self.comments@)[m],
                        path@,
                        line,
                    ),
            decreases n - i,
        {
            let c = &self.comments[i];
            let covers = if c.path == path {
                if c.line == line {
                    true
                } else {
                    match c.start_line {
                        Some(sl) => sl <= line && line <= c.line,
                        None => false,
                    }
                }
            } else {
                false
            };
            proof {
                assert(comments_view(self.comments@)[i as int] == c@);
                assert(covers == comment_matches_at(comments_view(self.comments@)[i as int], path@, line));
            }
            if covers {
                proof {
                    lemma_find_at_from_props(comments_view(self.comments@), path@, line, 0);
                    lemma_find_at_from_shift(comments_view(self.comments@), path@, line, i as int);
                }
                return Some((i, c));
            }
            i = i + 1;
        }
        proof {
            lemma_find_at_from_props(comments_view(self.comments@), path@, line, 0);
        }
        None
    }

    /// Removes the first comment structurally equal to `comment`; fails with
    /// `CommentNotFound` when none is, leaving the review unchanged.
    pub fn delete_comment(&mut self, comment: &Comment) -> (r: Result<(), EditError>)
        ensures
            ({
                let (nrv, res) = spec_delete_comment(old(self)@, comment@);
                final(self)@ == nrv && r == res
            }),
    {
        let n = self.comments.len();
        let mut i: usize = 0;
        while i < n
            invariant
                n == self.comments@.len(),
                i <= n,
                *self == *old(self),
                forall|m: int| 0 <= m < i ==> #[trigger] comments_view(self.comments@)[m]
                    != comment@,
            decreases n - i,
        {
            let equal_here = self.comments[i] == *comment;
            proof {
                assert(comments_view(self.comments@)[i as int] == self.comments@[i as int]@);
            }
            if equal_here {
                proof {
                    lemma_find_equal_from_props(comments_view(self.comments@), comment@, 0);
                }
                self.comments.remove(i);
                proof {
                    assert(comments_view(self.comments@) =~= comments_view(
                        old(self).comments@,
                    ).remove(i as int));
                }
                return Ok(());
            }
            i = i + 1;
        }
        proof {
            lemma_find_equal_from_props(comments_view(self.comments@), comment@, 0);
        }
        Err(EditError::CommentNotFound)
    }

    /// Starts a draft comment at the given anchor with an empty body; fails
    /// with `CommentInProgress` while another draft exists.
    pub fn begin_comment(
        &mut self,
        path: String,
        side: Side,
        line: u32,
        start_line: Option<u32>,
        start_side: Option<Side>,
    ) -> (r: Result<(), EditError>)
        ensures
            ({
                let (nrv, res) = spec_begin_comment(
                    old(self)@,
                    path@,
                    side,
                    line,
                    start_line,
                    start_side,
                );
                final(self)@ == nrv && r == res
            }),
    {
        if self.in_progress_comment.is_some() {
            return Err(EditError::CommentInProgress);
        }
        self.in_progress_comment = Some(
            Comment::new(String::new(), line, path, side, start_line, start_side),
        );
        Ok(())
    }

    /// Commits the draft comment with its final body text; fails with
    /// `NoInProgressComment` when no draft exists, or `IndexOutOfRange` for a
    /// bad existing-comment target, in which case the draft is kept.
    pub fn commit_comment(&mut self, body: String, target: CommitTarget) -> (r: Result<
        (),
        EditError,
    >)
        ensures
            ({
                let (nrv, res) = spec_commit_comment(old(self)@, body@, target);
                final(self)@ == nrv && r == res
            }),
    {
        if self.in_progress_comment.is_none() {
            return Err(EditError::NoInProgressComment);
        }
        match target {
            CommitTarget::New => {
                let taken = self.in_progress_comment.take();
                let mut done = taken.unwrap();
                done.body = body;
                self.comments.push(done);
                proof {
                    assert(comments_view(self.comments@) =~= comments_view(
                        old(self).comments@,
                    ).push(CommentView { body: body@, ..old(self)@.in_progress_comment->0 }));
                }
                Ok(())
            },
            CommitTarget::ExistingAt(i) => {
                if i < self.comments.len() {
                    let taken = self.in_progress_comment.take();
                    let mut done = taken.unwrap();
                    done.body = body;
                    self.comments.set(i, done);
                    proof {
                        assert(comments_view(self.comments@) =~= comments_view(
                            old(self).comments@,
                        ).update(
                            i as int,
                            CommentView { body: body@, ..old(self)@.in_progress_comment->0 },
                        ));
                    }
                    Ok(())
                } else {
                    Err(EditError::IndexOutOfRange)
                }
            },
        }
    }
}

proof fn lemma_find_at_from_shift(cs: Seq<CommentView>, path: Seq<char>, line: u32, k: int)
    requires
        0 <= k <= cs.len(),
        forall|m: int| 0 <= m < k ==> !comment_matches_at(#[trigger] cs[m], path, line),
    ensures
        find_at_from(cs, path, line, 0) == find_at_from(cs, path, line, k),
    decreases k,
{
    if k > 0 {
        lemma_find_at_from_shift(cs, path, line, k - 1);
    }
}

} // verus!
