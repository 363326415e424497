//! Finding the part of a path that the placeholders of a route stand for.

use crate::error::Error;
use crate::misc::bytes::{find_piece_end, piece_end};
use vstd::prelude::*;
use vstd::string::StringSliceAdditionalSpecFns;

verus! {

/// The separator of the segments of a path.
pub const SLASH: u8 = 0x2f;

/// The character that a placeholder begins with.
pub const BRACE: u8 = 0x7b;

/// How far the segments of the definition `def` reach from `start` on, given that what lies
/// in front of them reaches `idx`, and if a placeholder ended the walk.
///
/// A segment that begins with a brace is a placeholder: it counts as one position and ends
/// the walk. Any other segment counts as many positions as it has bytes.
pub open spec fn walk_segments(def: Seq<u8>, start: int, idx: int) -> (int, bool)
    decreases def.len() + 1 - start,
{
    if start < 0 || start > def.len() {
        (idx, false)
    } else {
        let end = piece_end(def, SLASH, start);
        if end < start || end > def.len() {
            (idx, false)
        } else if end > start && def[start] == BRACE {
            (idx + 1, true)
        } else {
            walk_segments(def, end + 1, idx + (end - start))
        }
    }
}

/// The position in a path at which the part begins that the first placeholder of the
/// definitions `defs` stands for, walking from the definition `i` on with `idx` positions
/// behind. Every definition has to begin with a slash, which counts as one position; the walk
/// ends without a position at the first one that does not, or behind the last one.
pub open spec fn placeholder_idx(defs: Seq<(&'static str, u8)>, i: int, idx: int) -> Option<int>
    decreases defs.len() - i,
{
    if i < 0 || i >= defs.len() {
        None
    } else {
        let def = defs[i].0.spec_bytes();
        if def.len() == 0 || def[0] != SLASH {
            None
        } else {
            let (reached, has_placeholder) = walk_segments(def, 1, idx + 1);
            if has_placeholder {
                Some(reached)
            } else {
                placeholder_idx(defs, i + 1, reached)
            }
        }
    }
}

/// The part of `path` that the first placeholder of `path_defs` stands for and everything
/// behind it, or [`Error::UriMismatch`] if there is no placeholder or if the path is too short
/// for it.
pub open spec fn spec_manage_path(defs: Seq<(&'static str, u8)>, path: Seq<u8>) -> Result<
    Seq<u8>,
    Error,
> {
    match placeholder_idx(defs, 0, 0) {
        Some(idx) => if idx <= path.len() {
            Ok(path.subrange(idx, path.len() as int))
        } else {
            Err(Error::UriMismatch)
        },
        None => Err(Error::UriMismatch),
    }
}

/// What was found, without the borrow.
pub open spec fn found_path(r: Result<&[u8], Error>) -> Result<Seq<u8>, Error> {
    match r {
        Ok(path) => Ok(path@),
        Err(e) => Err(e),
    }
}

/// Finds the part of `path` that the first placeholder of the route `path_defs` stands for.
#[verifier::loop_isolation(false)]
pub fn manage_path<'uri>(path_defs: (u8, &[(&'static str, u8)]), path: &'uri [u8]) -> (r: Result<
    &'uri [u8],
    Error,
>)
    ensures
        found_path(r) == spec_manage_path(path_defs.1@, path@),
{
    let defs = path_defs.1;
    let mut prev_idx: usize = 0;
    let mut i: usize = 0;
    while i < defs.len()
        invariant
            i <= defs@.len(),
            defs@ == path_defs.1@,
            prev_idx <= path@.len(),
            placeholder_idx(defs@, 0, 0) == placeholder_idx(defs@, i as int, prev_idx as int),
        decreases defs@.len() - i,
    {
        let def: &[u8] = defs[i].0.as_bytes();
        if def.len() == 0 || def[0] != SLASH {
            return Err(Error::UriMismatch);
        }
        if prev_idx >= path.len() {
            proof {
                lemma_walk_grows(def@, 1, prev_idx + 1);
                lemma_idx_grows(defs@, i as int + 1, walk_segments(def@, 1, prev_idx + 1).0);
            }
            return Err(Error::UriMismatch);
        }
        prev_idx = prev_idx + 1;
        let ghost begin = prev_idx;
        let mut start: usize = 1;
        let mut is_walked: bool = false;
        let mut has_placeholder: bool = false;
        while !is_walked
            invariant
                1 <= start <= def@.len(),
                prev_idx <= path@.len(),
                !is_walked ==> !has_placeholder,
                !is_walked ==> walk_segments(def@, 1, begin as int) == walk_segments(
                    def@,
                    start as int,
                    prev_idx as int,
                ),
                is_walked ==> walk_segments(def@, 1, begin as int) == (
                    prev_idx as int,
                    has_placeholder,
                ),
            decreases def@.len() - start + if is_walked { 0int } else { 1int },
        {
            proof {
                reveal_with_fuel(walk_segments, 2);
            }
            let end: usize = find_piece_end(def, SLASH, start);
            let advance: usize = if end > start && def[start] == BRACE {
                1
            } else {
                end - start
            };
            if advance > path.len() - prev_idx {
                proof {
                    let reached = walk_segments(def@, start as int, prev_idx as int).0;
                    lemma_walk_grows(def@, start as int, prev_idx as int);
                    if end > start && def@[start as int] == BRACE {
                    } else {
                        lemma_walk_grows(def@, end + 1, prev_idx + (end - start));
                    }
                    lemma_idx_grows(defs@, i as int + 1, reached);
                }
                return Err(Error::UriMismatch);
            }
            let ghost before = prev_idx;
            prev_idx = prev_idx + advance;
            if end > start && def[start] == BRACE {
                proof {
                    assert(walk_segments(def@, start as int, before as int) == (before + 1, true));
                }
                has_placeholder = true;
                is_walked = true;
            } else if end >= def.len() {
                proof {
                    assert(walk_segments(def@, end + 1, prev_idx as int) == (
                        prev_idx as int,
                        false,
                    ));
                    assert(walk_segments(def@, start as int, before as int) == walk_segments(
                        def@,
                        end + 1,
                        prev_idx as int,
                    ));
                }
                is_walked = true;
            } else {
                start = end + 1;
            }
        }
        if has_placeholder {
            return Ok(vstd::slice::slice_subrange(path, prev_idx, path.len()));
        }
        i += 1;
    }
    Err(Error::UriMismatch)
}

/// A walk never goes back.
pub proof fn lemma_walk_grows(def: Seq<u8>, start: int, idx: int)
    ensures
        walk_segments(def, start, idx).0 >= idx,
    decreases def.len() + 1 - start,
{
    if 0 <= start <= def.len() {
        let end = piece_end(def, SLASH, start);
        if start <= end <= def.len() && !(end > start && def[start] == BRACE) {
            lemma_walk_grows(def, end + 1, idx + (end - start));
        }
    }
}

/// The position of a placeholder never lies in front of where the walk began.
pub proof fn lemma_idx_grows(defs: Seq<(&'static str, u8)>, i: int, idx: int)
    ensures
        placeholder_idx(defs, i, idx) matches Some(found) ==> found > idx,
    decreases defs.len() - i,
{
    if 0 <= i < defs.len() {
        let def = defs[i].0.spec_bytes();
        if def.len() > 0 && def[0] == SLASH {
            lemma_walk_grows(def, 1, idx + 1);
            let (reached, has_placeholder) = walk_segments(def, 1, idx + 1);
            if !has_placeholder {
                lemma_idx_grows(defs, i + 1, reached);
            }
        }
    }
}

} // verus!
