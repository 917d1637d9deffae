//! The text logic of the source-range reader: a request names a file and a
//! character range, and the range shown is widened by a margin on each side.
use vstd::prelude::*;
use crate::text::{
    chars_of, copy_range, find_char, find_from, find_pair, find_pair_from, parse_usize, parse_usize_spec,
    string_of,
};

verus! {

/// How many characters are shown before and after a requested range.
pub const MARGIN: usize = 10;

/// A request `path:start..end`: the path is what precedes the first `:`, and
/// the two bounds are split at the first `..` after it. `None` where the
/// request has no `:`, no `..` after it, or a bound that is not a `usize`.
pub open spec fn request_spec(s: Seq<char>) -> Option<(Seq<char>, int, int)> {
    match find_from(s, ':', 0) {
        None => None,
        Some(k) => {
            let rest = s.skip(k + 1);
            match find_pair_from(rest, '.', '.', 0) {
                None => None,
                Some(j) => match (parse_usize_spec(rest.take(j)), parse_usize_spec(rest.skip(j + 2))) {
                    (Some(a), Some(b)) => Some((s.take(k), a, b)),
                    _ => None,
                },
            }
        },
    }
}

/// Splits a request `path:start..end` into its path and bounds.
pub fn parse_line(text: &str) -> (r: Option<(String, usize, usize)>)
    ensures
        r matches Some(t) ==> request_spec(text@) == Some((t.0@, t.1 as int, t.2 as int)),
        r is None ==> request_spec(text@) is None,
{
    let chars = chars_of(text);
    let line = chars.as_slice();
    let k = match find_char(line, ':') {
        None => return None,
        Some(k) => k,
    };
    proof {
        crate::text::lemma_find_from(line@, ':', 0);
    }
    let rest = copy_range(line, k + 1, line.len());
    assert(rest@ =~= line@.skip(k + 1));
    let j = match find_pair(rest.as_slice(), '.', '.') {
        None => return None,
        Some(j) => j,
    };
    let lo = copy_range(rest.as_slice(), 0, j);
    let hi = copy_range(rest.as_slice(), j + 2, rest.len());
    assert(lo@ =~= rest@.take(j as int));
    assert(hi@ =~= rest@.skip(j + 2));
    let a = match parse_usize(lo.as_slice()) {
        None => return None,
        Some(a) => a,
    };
    let b = match parse_usize(hi.as_slice()) {
        None => return None,
        Some(b) => b,
    };
    let path = copy_range(line, 0, k);
    assert(path@ =~= line@.take(k as int));
    Some((string_of(path.as_slice()), a, b))
}

/// The range `start..end` widened by `MARGIN` on each side: the start
/// saturates at zero and the end is capped at `max`.
pub fn span_expand_safe(start: usize, end: usize, max: usize) -> (r: (usize, usize))
    requires
        end + MARGIN <= usize::MAX,
    ensures
        r.0 == (if start >= MARGIN { start - MARGIN } else { 0 }),
        r.1 == (if end + MARGIN <= max { end + MARGIN } else { max as int }),
{
    let lo = start.saturating_sub(MARGIN);
    let hi = if end + MARGIN <= max {
        end + MARGIN
    } else {
        max
    };
    (lo, hi)
}

} // verus!
