//! Segmentation of store keys.
//!
//! A key is an opaque string; its only structure is that the delimiter
//! character splits it into an ordered sequence of segments.  A key without
//! any delimiter has exactly one segment.

use vstd::prelude::*;

verus! {

/// The character that separates the segments of a key.
pub const DELIMITER: char = ':';

/// Index of the first delimiter in `k`, or `k.len()` if there is none.
pub open spec fn first_delim(k: Seq<char>) -> int
    decreases k.len(),
{
    if k.len() == 0 {
        0
    } else if k[0] == DELIMITER {
        0
    } else {
        1 + first_delim(k.drop_first())
    }
}

/// Any position with no delimiter before it, and a delimiter (or the end) at
/// it, is exactly `first_delim`.
proof fn lemma_first_delim_is(k: Seq<char>, i: int)
    requires
        0 <= i <= k.len(),
        forall|j: int| 0 <= j < i ==> k[j] != DELIMITER,
        i < k.len() ==> k[i] == DELIMITER,
    ensures
        first_delim(k) == i,
    decreases k.len(),
{
    if k.len() == 0 {
    } else if k[0] == DELIMITER {
        assert(i == 0);
    } else {
        assert(k[0] != DELIMITER);
        assert(i >= 1) by {
            if i == 0 {
                assert(k[0] == DELIMITER);
            }
        }
        assert forall|j: int| 0 <= j < i - 1 implies k.drop_first()[j] != DELIMITER by {
            assert(k.drop_first()[j] == k[j + 1]);
        }
        assert(i - 1 < k.drop_first().len() ==> k.drop_first()[i - 1] == DELIMITER);
        lemma_first_delim_is(k.drop_first(), i - 1);
    }
}

/// The segments of a key: the delimiter-separated pieces, in order.  Every
/// key has at least one segment; a key without a delimiter has exactly one.
pub open spec fn segments(k: Seq<char>) -> Seq<Seq<char>>
    decreases k.len(),
{
    let i = first_delim(k);
    if 0 <= i && i < k.len() {
        seq![k.take(i)] + segments(k.skip(i + 1))
    } else {
        seq![k]
    }
}

/// The views of a list of key strings.
pub open spec fn key_views(ks: Seq<String>) -> Seq<Seq<char>> {
    ks.map_values(|k: String| k@)
}

/// The set of (views of) a list of key strings; order and duplication are
/// forgotten.
pub open spec fn key_set(ks: Seq<String>) -> Set<Seq<char>> {
    key_views(ks).to_set()
}

/// Splits a key into its segments.
pub fn split_key(key: &str) -> (parts: Vec<String>)
    ensures
        key_views(parts@) == segments(key@),
{
    let n = key.unicode_len();
    let mut parts: Vec<String> = Vec::new();
    let mut start: usize = 0;
    let mut i: usize = 0;
    proof {
        assert(key@.skip(0) == key@);
    }
    while i < n
        invariant
            start <= i <= n,
            n == key@.len(),
            forall|m: int| start <= m < i ==> key@[m] != DELIMITER,
            key_views(parts@) + segments(key@.skip(start as int)) == segments(key@),
        decreases n - i,
    {
        let c = key.get_char(i);
        if c == DELIMITER {
            let piece = key.substring_char(start, i).to_owned();
            proof {
                let rest = key@.skip(start as int);
                assert forall|j: int| 0 <= j < i - start implies rest[j] != DELIMITER by {
                    assert(rest[j] == key@[start + j]);
                }
                assert(rest[i - start] == key@[i as int]);
                lemma_first_delim_is(rest, i - start);
                assert(rest.take(i - start) =~= piece@);
                assert(rest.skip(i - start + 1) =~= key@.skip(i as int + 1));
                assert(segments(rest) == seq![piece@] + segments(key@.skip(i as int + 1)));
                assert(key_views(parts@.push(piece)) =~= key_views(parts@).push(piece@));
                assert(key_views(parts@).push(piece@) + segments(key@.skip(i as int + 1))
                    =~= key_views(parts@) + segments(rest));
            }
            parts.push(piece);
            start = i + 1;
        }
        i += 1;
    }
    let piece = key.substring_char(start, n).to_owned();
    proof {
        let rest = key@.skip(start as int);
        assert forall|j: int| 0 <= j < rest.len() implies rest[j] != DELIMITER by {
            assert(rest[j] == key@[start + j]);
        }
        lemma_first_delim_is(rest, n - start);
        assert(segments(rest) == seq![rest]);
        assert(rest =~= piece@);
        assert(key_views(parts@.push(piece)) =~= key_views(parts@).push(piece@));
        assert(key_views(parts@).push(piece@) =~= key_views(parts@) + seq![piece@]);
    }
    parts.push(piece);
    parts
}

/// Whether `s` occurs in `v`, compared by contents.
pub fn contains_key(v: &Vec<String>, s: &String) -> (r: bool)
    ensures
        r == key_views(v@).contains(s@),
{
    let mut i: usize = 0;
    while i < v.len()
        invariant
            i <= v@.len(),
            forall|m: int| 0 <= m < i ==> key_views(v@)[m] != s@,
        decreases v@.len() - i,
    {
        assert(key_views(v@)[i as int] == v@[i as int]@);
        if v[i].eq(s) {
            return true;
        }
        i += 1;
    }
    false
}

} // verus!
