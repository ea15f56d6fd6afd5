//! Where persisted documents live inside the repository's review directory:
//! one `{number}-review.json` document per pull/merge request, and one
//! `config.json` beside them. The directory itself is found by the
//! surrounding program from the local git metadata directory and handed in.

use crate::text::{append_dec_u32, dec_rep, push_char};
use vstd::prelude::*;

verus! {

/// A directory joined with a relative file name: a separator is added only
/// when the directory does not already end with one.
pub open spec fn join_path(dir: Seq<char>, file: Seq<char>) -> Seq<char> {
    if dir.len() > 0 && dir.last() == '/' {
        dir + file
    } else {
        dir + seq!['/'] + file
    }
}

/// The file name of the review document of one pull/merge request.
pub open spec fn review_file_name(pr_number: u32) -> Seq<char> {
    dec_rep(pr_number as nat) + "-review.json"@
}

fn join_path_exec(dir: &str, file: &str) -> (r: String)
    ensures
        r@ == join_path(dir@, file@),
{
    let n: usize = dir.unicode_len();
    let mut out = dir.to_owned();
    if n == 0 || dir.get_char(n - 1) != '/' {
        push_char(&mut out, '/');
        proof {
            assert(out@ =~= dir@ + seq!['/']);
        }
    }
    out.append(file);
    proof {
        if dir@.len() > 0 && dir@.last() == '/' {
            assert(out@ =~= dir@ + file@);
        } else {
            assert(out@ =~= (dir@ + seq!['/']) + file@);
            assert((dir@ + seq!['/']) + file@ =~= dir@ + seq!['/'] + file@);
        }
    }
    out
}

/// The path of the review document of `pr_number` inside the review
/// directory.
pub fn get_review_file_path(review_dir: &str, pr_number: u32) -> (r: String)
    ensures
        r@ == join_path(review_dir@, review_file_name(pr_number)),
{
    let mut name = String::new();
    append_dec_u32(&mut name, pr_number);
    name.append("-review.json");
    proof {
        assert(name@ =~= review_file_name(pr_number));
    }
    join_path_exec(review_dir, name.as_str())
}

/// The path of the configuration document inside the review directory.
pub fn get_config_file_path(review_dir: &str) -> (r: String)
    ensures
        r@ == join_path(review_dir@, "config.json"@),
{
    join_path_exec(review_dir, "config.json")
}

} // verus!
