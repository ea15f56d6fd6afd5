//! The position resolver: decides which half of the diff the file being
//! viewed belongs to. A read-only snapshot of a prior revision is recognized
//! by its URI scheme and an embedded forty-character object id, and anchors
//! on the left (base) side; a working-tree file under the repository root
//! anchors on the right (head) side. Anything else is not in the repository.

use crate::review::Side;
use crate::text::seq_at;
use vstd::prelude::*;

verus! {

/// A lower-case hexadecimal digit, as an object id is printed.
pub open spec fn is_lower_hex(c: char) -> bool {
    ('0' <= c && c <= '9') || ('a' <= c && c <= 'f')
}

/// A forty-character object id starts at `j` and a slash follows it.
pub open spec fn oid_slash_at(s: Seq<char>, j: int) -> bool {
    &&& 0 <= j
    &&& j + 41 <= s.len()
    &&& forall|k: int| j <= k < j + 40 ==> is_lower_hex(#[trigger] s[k])
    &&& s[j + 40] == '/'
}

/// The last position at or before `j` where an object id followed by a slash
/// starts.
pub open spec fn last_oid_from(s: Seq<char>, j: int) -> Option<int>
    decreases j + 1,
{
    if j < 0 {
        None
    } else if oid_slash_at(s, j) {
        Some(j)
    } else {
        last_oid_from(s, j - 1)
    }
}

/// Where a viewed artifact anchors: the path after the last object id of a
/// snapshot URI on the left side, or the path under the repository root on
/// the right side.
pub open spec fn spec_resolve(buffer: Seq<char>, workdir: Seq<char>) -> Option<
    (Side, Seq<char>),
> {
    if seq_at(buffer, 0, "fugitive://"@) {
        match last_oid_from(buffer, buffer.len() - 41) {
            None => None,
            Some(j) => Some((Side::LEFT, buffer.skip(j + 41))),
        }
    } else if workdir.len() <= buffer.len() && buffer.take(workdir.len() as int) == workdir {
        Some((Side::RIGHT, buffer.skip(workdir.len() as int)))
    } else {
        None
    }
}

/// Is a forty-character object id followed by a slash at index `j`?
fn oid_slash_at_exec(s: &str, j: usize, n: usize) -> (r: bool)
    requires
        n == s@.len(),
        j + 41 <= n,
    ensures
        r == oid_slash_at(s@, j as int),
{
    let mut k: usize = 0;
    while k < 40
        invariant
            k <= 40,
            j + 41 <= n == s@.len(),
            forall|m: int| j <= m < j + k ==> is_lower_hex(#[trigger] s@[m]),
        decreases 40 - k,
    {
        let c = s.get_char(j + k);
        let cv: u32 = c as u32;
        let hex = (cv >= 48 && cv <= 57) || (cv >= 97 && cv <= 102);
        if !hex {
            assert(!is_lower_hex(s@[j + k]));
            return false;
        }
        k = k + 1;
    }
    s.get_char(j + 40) == '/'
}

/// Resolves the artifact named `buffer_path` against the repository root
/// `workdir`: the side of the diff it shows and its repository-relative
/// path, or nothing when it lies outside the repository.
pub fn resolve_buffer_path(buffer_path: &str, workdir: &str) -> (r: Option<(Side, String)>)
    ensures
        match r {
            Some((sd, p)) => spec_resolve(buffer_path@, workdir@) == Some((sd, p@)),
            None => spec_resolve(buffer_path@, workdir@) is None,
        },
{
    let n: usize = buffer_path.unicode_len();
    let fug = "fugitive://";
    let fn_len: usize = fug.unicode_len();
    let is_snapshot = crate::text::match_at(buffer_path, 0, fug, n, fn_len);
    if is_snapshot {
        if n < 41 {
            proof {
                assert(last_oid_from(buffer_path@, buffer_path@.len() - 41) is None) by {
                    lemma_no_oid_below(buffer_path@, buffer_path@.len() - 41);
                }
            }
            return None;
        }
        let mut j: usize = n - 41;
        loop
            invariant
                j <= n - 41,
                n == buffer_path@.len(),
                n >= 41,
                seq_at(buffer_path@, 0, "fugitive://"@),
                forall|m: int|
                    j < m <= n - 41 ==> !oid_slash_at(buffer_path@, m),
            decreases j,
        {
            if oid_slash_at_exec(buffer_path, j, n) {
                proof {
                    lemma_last_oid_found(buffer_path@, buffer_path@.len() - 41, j as int);
                }
                let rel = buffer_path.substring_char(j + 41, n);
                proof {
                    assert(buffer_path@.skip(j + 41) =~= buffer_path@.subrange(
                        j + 41,
                        n as int,
                    ));
                }
                return Some((Side::LEFT, rel.to_owned()));
            }
            if j == 0 {
                proof {
                    assert(forall|m: int|
                        0 <= m <= buffer_path@.len() - 41 ==> !oid_slash_at(
                            buffer_path@,
                            m,
                        ));
                    lemma_no_oid_at_all(buffer_path@, buffer_path@.len() - 41);
                }
                return None;
            }
            j = j - 1;
        }
    } else {
        let wn: usize = workdir.unicode_len();
        let under_root = crate::text::match_at(buffer_path, 0, workdir, n, wn);
        proof {
            if under_root {
                assert(buffer_path@.take(wn as int) =~= buffer_path@.subrange(0, wn as int));
            } else {
                if wn <= n {
                    assert(buffer_path@.take(wn as int) =~= buffer_path@.subrange(0, wn as int));
                }
            }
        }
        if under_root {
            let rel = buffer_path.substring_char(wn, n);
            proof {
                assert(buffer_path@.skip(wn as int) =~= buffer_path@.subrange(wn as int, n as int));
            }
            Some((Side::RIGHT, rel.to_owned()))
        } else {
            None
        }
    }
}

proof fn lemma_no_oid_below(s: Seq<char>, j: int)
    requires
        forall|m: int| 0 <= m <= j ==> !oid_slash_at(s, m),
    ensures
        last_oid_from(s, j) is None,
    decreases j + 1,
{
    if j >= 0 {
        lemma_no_oid_below(s, j - 1);
    }
}

proof fn lemma_no_oid_at_all(s: Seq<char>, j: int)
    requires
        forall|m: int| 0 <= m <= j ==> !oid_slash_at(s, m),
    ensures
        last_oid_from(s, j) is None,
{
    lemma_no_oid_below(s, j);
}

proof fn lemma_last_oid_found(s: Seq<char>, top: int, j: int)
    requires
        0 <= j <= top,
        oid_slash_at(s, j),
        forall|m: int| j < m <= top ==> !oid_slash_at(s, m),
    ensures
        last_oid_from(s, top) == Some(j),
    decreases top + 1,
{
    if top > j {
        lemma_last_oid_found(s, top - 1, j);
    }
}

} // verus!
