//! Normalized path addressing: splitting a display-form path into non-empty
//! segments.

use vstd::prelude::*;

use crate::node::seq_views;

verus! {

/// Split of `s` at `sep`, read left to right: the completed segments and the
/// still-open segment. Empty segments are dropped.
pub open spec fn split_rec(s: Seq<char>, sep: char) -> (Seq<Seq<char>>, Seq<char>)
    decreases s.len(),
{
    if s.len() == 0 {
        (Seq::empty(), Seq::empty())
    } else {
        let (segs, cur) = split_rec(s.drop_last(), sep);
        let c = s.last();
        if c == sep {
            if cur.len() > 0 {
                (segs.push(cur), Seq::empty())
            } else {
                (segs, Seq::empty())
            }
        } else {
            (segs, cur.push(c))
        }
    }
}

/// The non-empty segments of `s`, split at `sep`, in order.
pub open spec fn spec_split(s: Seq<char>, sep: char) -> Seq<Seq<char>> {
    let (segs, cur) = split_rec(s, sep);
    if cur.len() > 0 {
        segs.push(cur)
    } else {
        segs
    }
}

/// Splits `s` at `sep`, dropping empty segments.
pub fn split_segments(s: &str, sep: char) -> (r: Vec<String>)
    ensures
        seq_views(r@) == spec_split(s@, sep),
{
    let n = s.unicode_len();
    let mut r: Vec<String> = Vec::new();
    let mut start: usize = 0;
    let mut i: usize = 0;
    proof {
        assert(s@.take(0) =~= Seq::<char>::empty());
        assert(s@.subrange(0, 0) =~= Seq::<char>::empty());
        assert(seq_views(r@) =~= Seq::<Seq<char>>::empty());
    }
    while i < n
        invariant
            start <= i <= n,
            n == s@.len(),
            split_rec(s@.take(i as int), sep).0 == seq_views(r@),
            split_rec(s@.take(i as int), sep).1 == s@.subrange(start as int, i as int),
        decreases n - i,
    {
        let c = s.get_char(i);
        proof {
            assert(s@.take(i + 1).drop_last() =~= s@.take(i as int));
            assert(s@.take(i + 1).last() == s@[i as int]);
        }
        if c == sep {
            if i > start {
                r.push(String::from_str(s.substring_char(start, i)));
                proof {
                    assert(seq_views(r@) =~= split_rec(s@.take(i + 1), sep).0);
                }
            }
            start = i + 1;
            proof {
                assert(s@.subrange(start as int, i + 1) =~= Seq::<char>::empty());
            }
        } else {
            proof {
                assert(s@.subrange(start as int, i + 1) =~= s@.subrange(
                    start as int,
                    i as int,
                ).push(s@[i as int]));
            }
        }
        i = i + 1;
    }
    proof {
        assert(s@.take(n as int) =~= s@);
    }
    if i > start {
        r.push(String::from_str(s.substring_char(start, n)));
        proof {
            assert(s@.subrange(start as int, n as int).len() > 0);
            assert(seq_views(r@) =~= spec_split(s@, sep));
        }
    } else {
        proof {
            assert(seq_views(r@) =~= spec_split(s@, sep));
        }
    }
    r
}

/// A display path yielded no segments at all.
#[derive(Clone, Copy, Debug, PartialEq, Eq, Structural)]
pub struct EmptyPathError;

/// An ordered sequence of non-empty segments addressing one node.
#[derive(Debug)]
pub struct PathKey {
    pub segments: Vec<String>,
}

impl PathKey {
    /// Splits `text` at `separator`, dropping empty segments; fails exactly
    /// when no segment remains.
    pub fn from_display_path(text: &str, separator: char) -> (r: Result<PathKey, EmptyPathError>)
        ensures
            r is Ok <==> spec_split(text@, separator).len() > 0,
            r is Ok ==> seq_views(r->Ok_0.segments@) == spec_split(text@, separator),
    {
        let segments = split_segments(text, separator);
        if segments.len() == 0 {
            Err(EmptyPathError)
        } else {
            proof {
                assert(seq_views(segments@).len() == segments@.len());
            }
            Ok(PathKey { segments })
        }
    }
}

} // verus!
