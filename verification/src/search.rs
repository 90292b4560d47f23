//! The search engine: case-insensitive substring scan over the line buffer
//! with wraparound and direction control. A match never crosses a line
//! boundary. Positions are character positions within the case-folded line.

use vstd::prelude::*;

verus! {

/// The case-folded form of a sequence of characters, as
/// `str::to_lowercase` computes it.
pub uninterp spec fn lower_of(s: Seq<char>) -> Seq<char>;

/// Relies on `str::to_lowercase`: the lowercase equivalent of the string.
/// The result depends on the characters alone, and it is empty exactly
/// when the input is empty.
#[verifier::external_body]
pub(crate) fn lower_str(s: &str) -> (r: String)
    ensures
        r@ == lower_of(s@),
        s@.len() == 0 <==> r@.len() == 0,
{
    s.to_lowercase()
}

/// `needle` occurs in `hay` starting at position `i`.
pub open spec fn is_match_at(hay: Seq<char>, needle: Seq<char>, i: int) -> bool {
    0 <= i && i + needle.len() <= hay.len() && hay.subrange(i, i + needle.len()) == needle
}

/// The case-folded query occurs somewhere in the case-folded line.
pub open spec fn line_matches(line: Seq<char>, query: Seq<char>) -> bool {
    exists|i: int| is_match_at(lower_of(line), lower_of(query), i)
}

/// `s` is the first position at which the case-folded query occurs in the
/// case-folded line.
pub open spec fn first_match_in_line(line: Seq<char>, query: Seq<char>, s: int) -> bool {
    &&& is_match_at(lower_of(line), lower_of(query), s)
    &&& forall|j: int| 0 <= j < s ==> !is_match_at(lower_of(line), lower_of(query), j)
}

/// No line with an index in `[lo, hi)` matches the query.
pub open spec fn no_match_in_range(lines: Seq<String>, query: Seq<char>, lo: int, hi: int) -> bool {
    forall|i: int| lo <= i < hi ==> !line_matches(#[trigger] lines[i]@, query)
}

/// `(li, s, e)` is the hit a search for `query` from `start_index` in the
/// given direction returns: the first matching line in scan order, the
/// first occurrence within it, and `e` one past the occurrence's end.
pub open spec fn found_match(
    lines: Seq<String>,
    query: Seq<char>,
    start_index: int,
    forward: bool,
    li: int,
    s: int,
    e: int,
) -> bool {
    &&& 0 <= li < lines.len()
    &&& first_match_in_line(lines[li]@, query, s)
    &&& e == s + lower_of(query).len()
    &&& forward && li > start_index ==> no_match_in_range(lines, query, start_index + 1, li)
    &&& forward && li <= start_index ==> no_match_in_range(lines, query, start_index + 1, lines.len() as int)
        && no_match_in_range(lines, query, 0, li)
    &&& !forward && li < start_index ==> no_match_in_range(lines, query, li + 1, start_index)
    &&& !forward && li >= start_index ==> no_match_in_range(lines, query, 0, start_index)
        && no_match_in_range(lines, query, li + 1, lines.len() as int)
}

/// First occurrence of `needle` in `hay`, both already case-folded.
fn find_lowered(hay: &String, needle: &String) -> (r: Option<(usize, usize)>)
    requires
        needle@.len() >= 1,
    ensures
        r matches Some((s, e)) ==> {
            &&& is_match_at(hay@, needle@, s as int)
            &&& forall|j: int| 0 <= j < s ==> !is_match_at(hay@, needle@, j)
            &&& e == s + needle@.len()
        },
        r is None ==> forall|j: int| !is_match_at(hay@, needle@, j),
{
    let n = hay.as_str().unicode_len();
    let m = needle.as_str().unicode_len();
    if m > n {
        proof {
            assert forall|j: int| !is_match_at(hay@, needle@, j) by {
                assert(j >= 0 ==> j + needle@.len() > hay@.len());
            }
        }
        return None;
    }
    let mut i: usize = 0;
    while i <= n - m
        invariant
            m >= 1,
            m <= n,
            n == hay@.len(),
            m == needle@.len(),
            i <= n - m + 1,
            forall|j: int| 0 <= j < i ==> !is_match_at(hay@, needle@, j),
        decreases n - i,
    {
        let mut k: usize = 0;
        let mut ok = true;
        while k < m && ok
            invariant
                m <= n,
                i <= n - m,
                n == hay@.len(),
                m == needle@.len(),
                k <= m,
                ok ==> hay@.subrange(i as int, i + k) == needle@.subrange(0, k as int),
                !ok ==> !is_match_at(hay@, needle@, i as int),
            decreases m - k + (if ok { 1int } else { 0int }),
        {
            let hc = hay.as_str().get_char(i + k);
            let nc = needle.as_str().get_char(k);
            if hc == nc {
                proof {
                    assert(hay@.subrange(i as int, i + k + 1) =~= hay@.subrange(i as int, i + k)
                        .push(hay@[i + k]));
                    assert(needle@.subrange(0, k + 1) =~= needle@.subrange(0, k as int).push(
                        needle@[k as int],
                    ));
                }
                k += 1;
            } else {
                proof {
                    if is_match_at(hay@, needle@, i as int) {
                        assert(hay@.subrange(i as int, i + m)[k as int] == needle@[k as int]);
                    }
                }
                ok = false;
            }
        }
        if ok {
            proof {
                assert(needle@.subrange(0, m as int) =~= needle@);
            }
            return Some((i, i + m));
        }
        i += 1;
    }
    proof {
        assert forall|j: int| !is_match_at(hay@, needle@, j) by {
            if 0 <= j < i {
            } else if j >= i {
                assert(j + needle@.len() > hay@.len());
            }
        }
    }
    None
}

/// Case-insensitive search over the line buffer.
///
/// Forward search scans `start_index + 1 ..` to the end, then wraps to
/// scan `0 ..= start_index`; backward search scans `start_index - 1`
/// down to `0`, then wraps to scan from the end down to `start_index`.
/// The first matching line in scan order is returned, together with the
/// first occurrence within that line: `(line_index, start, end)`, where
/// `start` and `end` delimit the occurrence in the case-folded line.
/// An empty query matches nothing.
pub fn find(lines: &Vec<String>, query: &str, start_index: usize, forward: bool) -> (r: Option<
    (usize, usize, usize),
>)
    requires
        start_index < lines@.len(),
    ensures
        query@.len() == 0 ==> r is None,
        r matches Some((li, s, e)) ==> found_match(
            lines@,
            query@,
            start_index as int,
            forward,
            li as int,
            s as int,
            e as int,
        ),
        r is None && query@.len() > 0 ==> no_match_in_range(lines@, query@, 0, lines@.len() as int),
{
    if query.is_empty() {
        return None;
    }
    let n = lines.len();
    let q = lower_str(query);
    if forward {
        let mut i: usize = start_index + 1;
        while i < n
            invariant
                forward,
                query@.len() >= 1,
                q@ == lower_of(query@),
                q@.len() >= 1,
                n == lines@.len(),
                start_index < n,
                start_index + 1 <= i <= n,
                no_match_in_range(lines@, query@, start_index + 1, i as int),
            decreases n - i,
        {
            let hay = lower_str(lines[i].as_str());
            if let Some((s, e)) = find_lowered(&hay, &q) {
                return Some((i, s, e));
            }
            i += 1;
        }
        let mut i: usize = 0;
        while i <= start_index
            invariant
                forward,
                query@.len() >= 1,
                q@ == lower_of(query@),
                q@.len() >= 1,
                n == lines@.len(),
                start_index < n,
                i <= start_index + 1,
                no_match_in_range(lines@, query@, start_index + 1, n as int),
                no_match_in_range(lines@, query@, 0, i as int),
            decreases start_index + 1 - i,
        {
            let hay = lower_str(lines[i].as_str());
            if let Some((s, e)) = find_lowered(&hay, &q) {
                return Some((i, s, e));
            }
            i += 1;
        }
        None
    } else {
        let mut i: usize = start_index;
        while i > 0
            invariant
                !forward,
                query@.len() >= 1,
                q@ == lower_of(query@),
                q@.len() >= 1,
                n == lines@.len(),
                start_index < n,
                i <= start_index,
                no_match_in_range(lines@, query@, i as int, start_index as int),
            decreases i,
        {
            i -= 1;
            let hay = lower_str(lines[i].as_str());
            if let Some((s, e)) = find_lowered(&hay, &q) {
                return Some((i, s, e));
            }
        }
        let mut j: usize = n;
        while j > start_index
            invariant
                !forward,
                query@.len() >= 1,
                q@ == lower_of(query@),
                q@.len() >= 1,
                n == lines@.len(),
                start_index < n,
                start_index <= j <= n,
                no_match_in_range(lines@, query@, 0, start_index as int),
                no_match_in_range(lines@, query@, j as int, n as int),
            decreases j,
        {
            j -= 1;
            let hay = lower_str(lines[j].as_str());
            if let Some((s, e)) = find_lowered(&hay, &q) {
                return Some((j, s, e));
            }
        }
        None
    }
}

} // verus!
