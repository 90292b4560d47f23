//! Greedy paragraph justification: the producer of the display-ready
//! line buffer the pager consumes. Paragraphs are separated by blank
//! lines, words longer than the target width are cut into width-sized
//! chunks, and every full line is padded with evenly distributed spaces
//! to exactly the target width. The contract of [`justify`] pins the
//! result down: every line fits the width, each paragraph becomes its
//! own contiguous run of nonempty lines closed by exactly one blank
//! line, and the lines' tokens are exactly the paragraph's words in
//! order (over-long words replaced in place by their chunks) — no word
//! is lost, duplicated, reordered, joined or split short; only spacing
//! changes.

use vstd::prelude::*;
use crate::text::{is_space, is_space_char, chars_to_string};
use vstd::string::StrSliceExecFns;

verus! {

/// The characters of `s`, one element per character.
fn str_chars(s: &str) -> (v: Vec<char>)
    ensures
        v@ == s@,
{
    let n = s.unicode_len();
    let mut v: Vec<char> = Vec::new();
    let mut i: usize = 0;
    while i < n
        invariant
            i <= n,
            n == s@.len(),
            v@ =~= s@.take(i as int),
        decreases n - i,
    {
        v.push(s.get_char(i));
        proof {
            assert(s@.take(i + 1) =~= s@.take(i as int).push(s@[i as int]));
        }
        i += 1;
    }
    proof {
        assert(s@.take(n as int) =~= s@);
    }
    v
}

/// A copy of `v[a..b]`.
fn copy_range(v: &Vec<char>, a: usize, b: usize) -> (r: Vec<char>)
    requires
        a <= b <= v@.len(),
    ensures
        r@ == v@.subrange(a as int, b as int),
{
    let mut r: Vec<char> = Vec::new();
    let mut i: usize = a;
    while i < b
        invariant
            a <= i <= b <= v@.len(),
            r@ =~= v@.subrange(a as int, i as int),
        decreases b - i,
    {
        r.push(v[i]);
        proof {
            assert(v@.subrange(a as int, i + 1) =~= v@.subrange(a as int, i as int).push(
                v@[i as int],
            ));
        }
        i += 1;
    }
    r
}

/// Splits at the `n`-th character: the first part holds the leading `n`
/// characters and the rest follows, or the string is returned whole when
/// it has no more than `n` characters.
pub fn split_at_char<'a>(s: &'a str, n: usize) -> (r: (&'a str, Option<&'a str>))
    ensures
        r.1 matches Some(rest) ==> s@.len() > n && r.0@ == s@.subrange(0, n as int) && rest@
            == s@.subrange(n as int, s@.len() as int),
        r.1 is None ==> s@.len() <= n && r.0@ == s@,
{
    let len = s.unicode_len();
    if len > n {
        let head = s.substring_char(0, n);
        let rest = s.substring_char(n, len);
        (head, Some(rest))
    } else {
        (s, None)
    }
}

/// The total character count of a group of words.
pub open spec fn sum_lens(words: Seq<Vec<char>>) -> int
    decreases words.len(),
{
    if words.len() == 0 {
        0
    } else {
        sum_lens(words.drop_last()) + words.last()@.len()
    }
}

proof fn lemma_sum_lens_prefix(words: Seq<Vec<char>>, i: int)
    requires
        0 < i <= words.len(),
    ensures
        sum_lens(words.take(i)) == sum_lens(words.take(i - 1)) + words[i - 1]@.len(),
{
    assert(words.take(i).drop_last() =~= words.take(i - 1));
    assert(words.take(i).last() == words[i - 1]);
}

/// A prefix sum never exceeds the whole and is never negative.
proof fn lemma_sum_lens_bound(words: Seq<Vec<char>>, i: int)
    requires
        0 <= i <= words.len(),
    ensures
        sum_lens(words.take(i)) <= sum_lens(words),
        sum_lens(words.take(i)) >= 0,
    decreases words.len(),
{
    if words.len() == 0 {
        assert(words.take(i) =~= words);
    } else if i == words.len() {
        assert(words.take(i) =~= words);
        lemma_sum_lens_bound(words.drop_last(), i - 1);
        assert(words.drop_last().take(i - 1) =~= words.drop_last());
    } else {
        lemma_sum_lens_bound(words.drop_last(), i);
        assert(words.drop_last().take(i) =~= words.take(i));
    }
}

/// Nonempty words make the sum at least the word count.
proof fn lemma_sum_lens_min(words: Seq<Vec<char>>)
    requires
        forall|i: int| 0 <= i < words.len() ==> #[trigger] words[i]@.len() >= 1,
    ensures
        sum_lens(words) >= words.len(),
    decreases words.len(),
{
    if words.len() > 0 {
        lemma_sum_lens_min(words.drop_last());
    }
}

/// The non-whitespace characters of a sequence, in order.
pub open spec fn drop_spaces(s: Seq<char>) -> Seq<char> {
    s.filter(|c: char| !is_space_char(c))
}

/// No character of the word is whitespace.
pub open spec fn no_space(w: Seq<char>) -> bool {
    forall|i: int| 0 <= i < w.len() ==> !is_space_char(#[trigger] w[i])
}

/// The words' characters, concatenated in order.
pub open spec fn cat(words: Seq<Vec<char>>) -> Seq<char>
    decreases words.len(),
{
    if words.len() == 0 {
        Seq::<char>::empty()
    } else {
        cat(words.drop_last()) + words.last()@
    }
}

proof fn lemma_drop_spaces_empty()
    ensures
        drop_spaces(Seq::<char>::empty()) == Seq::<char>::empty(),
{
    reveal(Seq::filter);
}

proof fn lemma_drop_spaces_push(s: Seq<char>, c: char)
    ensures
        drop_spaces(s.push(c)) == drop_spaces(s) + (if is_space_char(c) {
            Seq::<char>::empty()
        } else {
            seq![c]
        }),
{
    reveal(Seq::filter);
    assert(s.push(c).drop_last() =~= s);
    assert(s.push(c).last() == c);
    if !is_space_char(c) {
        assert(drop_spaces(s).push(c) =~= drop_spaces(s) + seq![c]);
    } else {
        assert(drop_spaces(s) =~= drop_spaces(s) + Seq::<char>::empty());
    }
}

proof fn lemma_drop_spaces_concat(a: Seq<char>, b: Seq<char>)
    ensures
        drop_spaces(a + b) == drop_spaces(a) + drop_spaces(b),
    decreases b.len(),
{
    reveal(Seq::filter);
    if b.len() == 0 {
        assert(a + b =~= a);
        assert(drop_spaces(a) + drop_spaces(b) =~= drop_spaces(a));
    } else {
        lemma_drop_spaces_concat(a, b.drop_last());
        let c = b.last();
        assert((a + b).drop_last() =~= a + b.drop_last());
        assert((a + b).last() == c);
        if !is_space_char(c) {
            assert(drop_spaces(a + b) =~= (drop_spaces(a) + drop_spaces(b.drop_last())).push(c));
            assert(drop_spaces(b) =~= drop_spaces(b.drop_last()).push(c));
            assert((drop_spaces(a) + drop_spaces(b.drop_last())).push(c) =~= drop_spaces(a)
                + drop_spaces(b.drop_last()).push(c));
        }
    }
}

/// A whitespace-free sequence is its own non-whitespace content.
proof fn lemma_drop_spaces_id(w: Seq<char>)
    requires
        no_space(w),
    ensures
        drop_spaces(w) == w,
    decreases w.len(),
{
    reveal(Seq::filter);
    if w.len() > 0 {
        lemma_drop_spaces_id(w.drop_last());
        assert(w.drop_last().push(w.last()) =~= w);
    }
}

/// The words' views, in order.
pub open spec fn word_views(words: Seq<Vec<char>>) -> Seq<Seq<char>>
    decreases words.len(),
{
    if words.len() == 0 {
        Seq::<Seq<char>>::empty()
    } else {
        word_views(words.drop_last()).push(words.last()@)
    }
}

proof fn lemma_word_views_push(words: Seq<Vec<char>>, w: Vec<char>)
    ensures
        word_views(words.push(w)) == word_views(words).push(w@),
{
    assert(words.push(w).drop_last() =~= words);
    assert(words.push(w).last() == w);
}

proof fn lemma_word_views_prefix(words: Seq<Vec<char>>, i: int)
    requires
        0 < i <= words.len(),
    ensures
        word_views(words.take(i)) == word_views(words.take(i - 1)).push(words[i - 1]@),
{
    assert(words.take(i).drop_last() =~= words.take(i - 1));
    assert(words.take(i).last() == words[i - 1]);
}

proof fn lemma_cat_push(words: Seq<Vec<char>>, w: Vec<char>)
    ensures
        cat(words.push(w)) == cat(words) + w@,
{
    assert(words.push(w).drop_last() =~= words);
    assert(words.push(w).last() == w);
}

proof fn lemma_cat_prefix(words: Seq<Vec<char>>, i: int)
    requires
        0 < i <= words.len(),
    ensures
        cat(words.take(i)) == cat(words.take(i - 1)) + words[i - 1]@,
{
    assert(words.take(i).drop_last() =~= words.take(i - 1));
    assert(words.take(i).last() == words[i - 1]);
}

/// A token cut into pieces of at most `width` characters: full-width
/// chunks, then the remainder.
pub open spec fn spec_chunks(w: Seq<char>, width: int) -> Seq<Seq<char>>
    decreases w.len(),
{
    if width < 1 || w.len() <= width {
        seq![w]
    } else {
        seq![w.take(width)] + spec_chunks(w.skip(width), width)
    }
}

/// All tokens cut in order: each token longer than `width` is replaced,
/// in place, by its consecutive chunks.
pub open spec fn spec_chunk_all(ws: Seq<Seq<char>>, width: int) -> Seq<Seq<char>>
    decreases ws.len(),
{
    if ws.len() == 0 {
        Seq::<Seq<char>>::empty()
    } else {
        spec_chunk_all(ws.drop_last(), width) + spec_chunks(ws.last(), width)
    }
}

proof fn lemma_chunk_all_push(ws: Seq<Seq<char>>, w: Seq<char>, width: int)
    ensures
        spec_chunk_all(ws.push(w), width) == spec_chunk_all(ws, width) + spec_chunks(w, width),
{
    assert(ws.push(w).drop_last() =~= ws);
    assert(ws.push(w).last() == w);
}

/// The maximal whitespace-free runs of the paragraph, in order; every
/// word is nonempty.
fn split_words(para: &Vec<char>) -> (words: Vec<Vec<char>>)
    ensures
        forall|i: int| 0 <= i < words@.len() ==> #[trigger] words@[i]@.len() >= 1,
        forall|i: int| 0 <= i < words@.len() ==> no_space(#[trigger] words@[i]@),
        cat(words@) == drop_spaces(para@),
        word_views(words@) == spec_words(para@),
{
    let mut words: Vec<Vec<char>> = Vec::new();
    let mut cur: Vec<char> = Vec::new();
    let mut i: usize = 0;
    proof {
        assert(para@.take(0) =~= Seq::<char>::empty());
        lemma_drop_spaces_empty();
        assert(Seq::<char>::empty() + para@.skip(0) =~= para@);
        assert(word_views(words@) + spec_words(para@.skip(0)) =~= spec_words(para@));
    }
    while i < para.len()
        invariant
            i <= para@.len(),
            forall|k: int| 0 <= k < words@.len() ==> #[trigger] words@[k]@.len() >= 1,
            forall|k: int| 0 <= k < words@.len() ==> no_space(#[trigger] words@[k]@),
            no_space(cur@),
            cat(words@) + cur@ == drop_spaces(para@.take(i as int)),
            word_views(words@) + spec_words(cur@ + para@.skip(i as int)) == spec_words(para@),
        decreases para@.len() - i,
    {
        let c = para[i];
        proof {
            assert(para@.take(i + 1) =~= para@.take(i as int).push(para@[i as int]));
            lemma_drop_spaces_push(para@.take(i as int), para@[i as int]);
            assert(para@.skip(i as int) =~= seq![para@[i as int]] + para@.skip(i + 1));
        }
        if is_space(c) {
            if cur.len() > 0 {
                let ghost wpre = words@;
                let ghost curv = cur@;
                proof {
                    let tail = seq![para@[i as int]] + para@.skip(i + 1);
                    assert(curv + para@.skip(i as int) =~= curv + tail);
                    lemma_words_cons_word(curv, tail);
                    assert(tail.skip(1) =~= para@.skip(i + 1));
                    assert(spec_words(tail) == spec_words(para@.skip(i + 1)));
                }
                words.push(cur);
                cur = Vec::new();
                proof {
                    lemma_cat_push(wpre, words@.last());
                    lemma_word_views_push(wpre, words@.last());
                    assert(cat(words@) + cur@ =~= cat(wpre) + curv);
                    assert(cur@ + para@.skip(i + 1) =~= para@.skip(i + 1));
                    assert(word_views(wpre) + (seq![curv] + spec_words(para@.skip(i + 1)))
                        =~= word_views(wpre).push(curv) + spec_words(para@.skip(i + 1)));
                }
            } else {
                proof {
                    assert(cat(words@) + cur@ =~= drop_spaces(para@.take(i + 1)));
                    let tail = seq![para@[i as int]] + para@.skip(i + 1);
                    assert(cur@ + para@.skip(i as int) =~= tail);
                    assert(tail.skip(1) =~= para@.skip(i + 1));
                    assert(spec_words(tail) == spec_words(para@.skip(i + 1)));
                    assert(cur@ + para@.skip(i + 1) =~= para@.skip(i + 1));
                }
            }
        } else {
            let ghost curv = cur@;
            cur.push(c);
            proof {
                assert(cat(words@) + cur@ =~= drop_spaces(para@.take(i + 1)));
                assert(curv + para@.skip(i as int) =~= cur@ + para@.skip(i + 1));
            }
        }
        i += 1;
    }
    proof {
        assert(para@.take(para@.len() as int) =~= para@);
        assert(para@.skip(para@.len() as int) =~= Seq::<char>::empty());
    }
    if cur.len() > 0 {
        let ghost wpre = words@;
        let ghost curv = cur@;
        proof {
            assert(curv + para@.skip(para@.len() as int) =~= curv);
            lemma_words_cons_word(curv, Seq::<char>::empty());
            assert(spec_words(Seq::<char>::empty()) =~= Seq::<Seq<char>>::empty());
        }
        words.push(cur);
        proof {
            lemma_cat_push(wpre, words@.last());
            lemma_word_views_push(wpre, words@.last());
            assert(word_views(wpre) + (seq![curv] + Seq::<Seq<char>>::empty())
                =~= word_views(wpre).push(curv));
        }
    } else {
        proof {
            assert(cat(words@) =~= cat(words@) + cur@);
            assert(cur@ + para@.skip(para@.len() as int) =~= Seq::<char>::empty());
            assert(spec_words(Seq::<char>::empty()) =~= Seq::<Seq<char>>::empty());
            assert(word_views(words@) + Seq::<Seq<char>>::empty() =~= word_views(words@));
        }
    }
    words
}

/// Words cut down to the width: every piece is nonempty and no longer
/// than `width`.
fn chunk_words(words: &Vec<Vec<char>>, width: usize) -> (r: Vec<Vec<char>>)
    requires
        width >= 1,
        forall|i: int| 0 <= i < words@.len() ==> #[trigger] words@[i]@.len() >= 1,
        forall|i: int| 0 <= i < words@.len() ==> no_space(#[trigger] words@[i]@),
    ensures
        forall|i: int| 0 <= i < r@.len() ==> 1 <= #[trigger] r@[i]@.len() <= width,
        forall|i: int| 0 <= i < r@.len() ==> no_space(#[trigger] r@[i]@),
        cat(r@) == cat(words@),
        word_views(r@) == spec_chunk_all(word_views(words@), width as int),
{
    let mut r: Vec<Vec<char>> = Vec::new();
    let mut j: usize = 0;
    proof {
        assert(words@.take(0) =~= Seq::<Vec<char>>::empty());
    }
    while j < words.len()
        invariant
            width >= 1,
            forall|i: int| 0 <= i < words@.len() ==> #[trigger] words@[i]@.len() >= 1,
            forall|i: int| 0 <= i < words@.len() ==> no_space(#[trigger] words@[i]@),
            forall|i: int| 0 <= i < r@.len() ==> 1 <= #[trigger] r@[i]@.len() <= width,
            forall|i: int| 0 <= i < r@.len() ==> no_space(#[trigger] r@[i]@),
            j <= words@.len(),
            cat(r@) == cat(words@.take(j as int)),
            word_views(r@) == spec_chunk_all(word_views(words@.take(j as int)), width as int),
        decreases words@.len() - j,
    {
        let w = &words[j];
        let mut rest = copy_range(w, 0, w.len());
        proof {
            lemma_cat_prefix(words@, j + 1);
            lemma_word_views_prefix(words@, j + 1);
            lemma_chunk_all_push(word_views(words@.take(j as int)), words@[j as int]@, width as int);
            assert(rest@ =~= words@[j as int]@);
        }
        let ghost target = cat(words@.take(j + 1));
        let ghost vtarget = spec_chunk_all(word_views(words@.take(j + 1)), width as int);
        while rest.len() > width
            invariant
                width >= 1,
                rest@.len() >= 1,
                no_space(rest@),
                forall|i: int| 0 <= i < r@.len() ==> 1 <= #[trigger] r@[i]@.len() <= width,
                forall|i: int| 0 <= i < r@.len() ==> no_space(#[trigger] r@[i]@),
                cat(r@) + rest@ == target,
                word_views(r@) + spec_chunks(rest@, width as int) == vtarget,
            decreases rest@.len(),
        {
            let head = copy_range(&rest, 0, width);
            let ghost rpre = r@;
            let ghost restv = rest@;
            proof {
                assert(no_space(head@));
            }
            r.push(head);
            let tail = copy_range(&rest, width, rest.len());
            rest = tail;
            proof {
                lemma_cat_push(rpre, r@.last());
                lemma_word_views_push(rpre, r@.last());
                assert(restv.subrange(0, width as int) =~= restv.take(width as int));
                assert(restv.subrange(width as int, restv.len() as int) =~= restv.skip(
                    width as int,
                ));
                assert(restv.take(width as int) + restv.skip(width as int) =~= restv);
                assert(cat(r@) + rest@ =~= cat(rpre) + restv);
                assert(spec_chunks(restv, width as int) == seq![restv.take(width as int)]
                    + spec_chunks(restv.skip(width as int), width as int));
                assert(word_views(rpre) + (seq![restv.take(width as int)] + spec_chunks(
                    restv.skip(width as int),
                    width as int,
                )) =~= word_views(rpre).push(restv.take(width as int)) + spec_chunks(
                    restv.skip(width as int),
                    width as int,
                ));
                assert(no_space(rest@));
            }
        }
        let ghost rpre = r@;
        proof {
            assert(spec_chunks(rest@, width as int) == seq![rest@]);
        }
        r.push(rest);
        proof {
            lemma_cat_push(rpre, r@.last());
            lemma_word_views_push(rpre, r@.last());
            assert(word_views(rpre) + seq![r@.last()@] =~= word_views(rpre).push(r@.last()@));
        }
        j += 1;
    }
    proof {
        assert(words@.take(words@.len() as int) =~= words@);
    }
    r
}

/// How many gap characters stand before word `i` of a justified line of
/// `n` words with base gap `each` and `extra` widened gaps.
pub open spec fn gap_total(i: int, n: int, each: int, extra: int) -> int {
    let g = if i <= n - 1 {
        i
    } else {
        n - 1
    };
    g * each + (if g <= extra {
        g
    } else {
        extra
    })
}

/// A run of `k` spaces.
pub open spec fn spaces_seq(k: int) -> Seq<char> {
    Seq::new((if k >= 0 {
        k
    } else {
        0
    }) as nat, |x: int| ' ')
}

/// The first `i` words of a justified line, each but the line's last
/// followed by its gap: `each` spaces, one more for the first `extra`
/// gaps.
pub open spec fn spec_justified_prefix(
    group: Seq<Vec<char>>,
    i: int,
    each: int,
    extra: int,
) -> Seq<char>
    decreases i,
{
    if i <= 0 {
        Seq::<char>::empty()
    } else {
        spec_justified_prefix(group, i - 1, each, extra) + group[i - 1]@ + (if i - 1 < group.len()
            - 1 {
            spaces_seq(each + (if i - 1 < extra {
                1int
            } else {
                0int
            }))
        } else {
            Seq::<char>::empty()
        })
    }
}

/// The complete justified line for a group, at the given width.
pub open spec fn spec_justified_line(group: Seq<Vec<char>>, width: int) -> Seq<char> {
    let spaces = width - sum_lens(group);
    let div = if group.len() > 1 {
        group.len() - 1
    } else {
        1int
    };
    spec_justified_prefix(group, group.len() as int, spaces / div, spaces % div)
}

/// The group's words joined by single spaces, first `i` of them.
pub open spec fn spec_joined_prefix(group: Seq<Vec<char>>, i: int) -> Seq<char>
    decreases i,
{
    if i <= 0 {
        Seq::<char>::empty()
    } else if i == 1 {
        group[0]@
    } else {
        spec_joined_prefix(group, i - 1) + seq![' '] + group[i - 1]@
    }
}

/// One fully justified line: the group's words with the leftover width
/// spread as evenly as possible into the gaps (earlier gaps get one more
/// space each until the remainder is used up). A one-word group stands
/// alone, unpadded; a longer group is padded to exactly the width.
#[verifier::rlimit(60)]
fn justify_line(group: &Vec<Vec<char>>, width: usize) -> (r: String)
    requires
        group@.len() >= 1,
        sum_lens(group@) + group@.len() - 1 <= width,
        forall|i: int| 0 <= i < group@.len() ==> #[trigger] group@[i]@.len() >= 1,
        forall|i: int| 0 <= i < group@.len() ==> no_space(#[trigger] group@[i]@),
    ensures
        r@.len() <= width,
        group@.len() >= 2 ==> r@.len() == width,
        group@.len() == 1 ==> r@.len() == sum_lens(group@),
        drop_spaces(r@) == cat(group@),
        r@ == spec_justified_line(group@, width as int),
        spec_words(r@) == word_views(group@),
{
    let n = group.len();
    let mut sum: usize = 0;
    let mut i: usize = 0;
    while i < n
        invariant
            i <= n,
            n == group@.len(),
            sum_lens(group@) + n - 1 <= width,
            sum == sum_lens(group@.take(i as int)),
            sum <= width,
        decreases n - i,
    {
        proof {
            lemma_sum_lens_prefix(group@, i + 1);
            lemma_sum_lens_bound(group@, i + 1);
        }
        sum = sum + group[i].len();
        i += 1;
    }
    proof {
        assert(group@.take(n as int) =~= group@);
    }
    let spaces = width - sum;
    let div = if n > 1 {
        n - 1
    } else {
        1
    };
    let each = spaces / div;
    let extra = spaces % div;
    proof {
        vstd::arithmetic::div_mod::lemma_fundamental_div_mod(spaces as int, div as int);
        vstd::arithmetic::div_mod::lemma_div_is_ordered_by_denominator(spaces as int, 1, div as int);
        vstd::arithmetic::div_mod::lemma_div_by_multiple(spaces as int, 1);
    }
    let mut out: Vec<char> = Vec::new();
    proof {
        assert(group@.take(0) =~= Seq::<Vec<char>>::empty());
        assert(sum_lens(Seq::<Vec<char>>::empty()) == 0);
        assert(sum_lens(group@.take(0)) == 0);
        assert(gap_total(0, n as int, each as int, extra as int) == 0) by {
            assert(0int * (each as int) == 0) by (nonlinear_arith);
        }
        assert(out@.len() == 0);
        lemma_drop_spaces_empty();
        assert(drop_spaces(out@) =~= cat(group@.take(0)));
        assert(out@ =~= spec_justified_prefix(group@, 0, each as int, extra as int));
    }
    let mut i: usize = 0;
    while i < n
        invariant
            i <= n,
            n == group@.len(),
            forall|k: int| 0 <= k < n ==> #[trigger] group@[k]@.len() >= 1,
            forall|k: int| 0 <= k < n ==> no_space(#[trigger] group@[k]@),
            sum == sum_lens(group@),
            sum + n - 1 <= width,
            spaces == width - sum,
            div == (if n > 1 {
                n - 1
            } else {
                1
            }),
            each == spaces as int / div as int,
            extra == spaces as int % div as int,
            each <= spaces,
            extra < div,
            (n as int - 1) * each + extra <= spaces,
            out@.len() == sum_lens(group@.take(i as int)) + gap_total(i as int, n as int, each as int, extra as int),
            drop_spaces(out@) == cat(group@.take(i as int)),
            out@ == spec_justified_prefix(group@, i as int, each as int, extra as int),
        decreases n - i,
    {
        proof {
            lemma_sum_lens_prefix(group@, i + 1);
            lemma_sum_lens_bound(group@, i + 1);
            lemma_cat_prefix(group@, i + 1);
        }
        let w = &group[i];
        let mut k: usize = 0;
        let ghost base = out@.len();
        let ghost opre = out@;
        while k < w.len()
            invariant
                k <= w@.len(),
                out@.len() == base + k,
                out@ == opre + w@.take(k as int),
            decreases w@.len() - k,
        {
            let ghost obefore = out@;
            out.push(w[k]);
            proof {
                assert(w@.take(k + 1) =~= w@.take(k as int).push(w@[k as int]));
                assert(obefore.push(w@[k as int]) =~= opre + w@.take(k + 1));
            }
            k += 1;
        }
        proof {
            assert(w@.take(w@.len() as int) =~= w@);
            lemma_drop_spaces_concat(opre, w@);
            lemma_drop_spaces_id(w@);
            assert(drop_spaces(out@) =~= cat(group@.take(i + 1)));
        }
        let ghost word_done = out@;
        if i < n - 1 {
            let mut g: usize = 0;
            let ghost base2 = out@.len();
            let ghost dcur = drop_spaces(out@);
            while g < each
                invariant
                    g <= each,
                    out@.len() == base2 + g,
                    drop_spaces(out@) == dcur,
                    out@ == word_done + spaces_seq(g as int),
                decreases each - g,
            {
                let ghost op = out@;
                out.push(' ');
                proof {
                    lemma_drop_spaces_push(op, ' ');
                    assert(drop_spaces(op) + Seq::<char>::empty() =~= drop_spaces(op));
                    assert(op.push(' ') =~= word_done + spaces_seq(g + 1));
                }
                g += 1;
            }
            if i < extra {
                let ghost op = out@;
                out.push(' ');
                proof {
                    lemma_drop_spaces_push(op, ' ');
                    assert(drop_spaces(op) + Seq::<char>::empty() =~= drop_spaces(op));
                    assert(op.push(' ') =~= word_done + spaces_seq(each + 1));
                }
            }
        }
        proof {
            assert((i + 1) * (each as int) == i * (each as int) + each) by (nonlinear_arith);
            let gap = if i < n - 1 {
                spaces_seq(each + (if i < extra {
                    1int
                } else {
                    0int
                }))
            } else {
                Seq::<char>::empty()
            };
            assert(out@ =~= word_done + gap);
            assert(word_done =~= spec_justified_prefix(group@, i as int, each as int, extra as int)
                + group@[i as int]@);
            assert(out@ =~= spec_justified_prefix(group@, i + 1, each as int, extra as int));
        }
        i += 1;
    }
    proof {
        assert(group@.take(n as int) =~= group@);
        if n >= 2 {
            vstd::arithmetic::div_mod::lemma_fundamental_div_mod(spaces as int, div as int);
            assert(gap_total(n as int, n as int, each as int, extra as int) == (n - 1) * each
                + extra);
            assert(out@.len() == sum + spaces);
        }
        assert(out@ == spec_justified_line(group@, width as int));
        if n >= 2 {
            assert(each >= 1) by {
                vstd::arithmetic::div_mod::lemma_div_is_ordered(
                    div as int,
                    spaces as int,
                    div as int,
                );
                vstd::arithmetic::div_mod::lemma_div_by_multiple(1, div as int);
            }
        }
        lemma_words_of_justified(group@, each as int, extra as int);
    }
    chars_to_string(&out)
}

/// The group's words joined by single spaces (a paragraph's last line,
/// which is not padded).
fn join_spaces(group: &Vec<Vec<char>>, width: usize) -> (r: String)
    requires
        group@.len() >= 1,
        sum_lens(group@) + group@.len() - 1 <= width,
        forall|i: int| 0 <= i < group@.len() ==> #[trigger] group@[i]@.len() >= 1,
        forall|i: int| 0 <= i < group@.len() ==> no_space(#[trigger] group@[i]@),
    ensures
        r@.len() <= width,
        r@.len() == sum_lens(group@) + group@.len() - 1,
        drop_spaces(r@) == cat(group@),
        r@ == spec_joined_prefix(group@, group@.len() as int),
        spec_words(r@) == word_views(group@),
{
    let n = group.len();
    let mut out: Vec<char> = Vec::new();
    let mut i: usize = 0;
    proof {
        assert(group@.take(0) =~= Seq::<Vec<char>>::empty());
        lemma_drop_spaces_empty();
        assert(drop_spaces(out@) =~= cat(group@.take(0)));
        assert(out@ =~= spec_joined_prefix(group@, 0));
    }
    while i < n
        invariant
            i <= n,
            n == group@.len(),
            forall|k: int| 0 <= k < n ==> no_space(#[trigger] group@[k]@),
            sum_lens(group@) + n - 1 <= width,
            out@.len() == sum_lens(group@.take(i as int)) + (if i > 0 {
                i - 1
            } else {
                0int
            }),
            out@.len() <= width,
            drop_spaces(out@) == cat(group@.take(i as int)),
            out@ == spec_joined_prefix(group@, i as int),
        decreases n - i,
    {
        proof {
            lemma_sum_lens_prefix(group@, i + 1);
            lemma_cat_prefix(group@, i + 1);
            lemma_sum_lens_bound(group@, i + 1);
        }
        let ghost joined_pre = out@;
        if i > 0 {
            let ghost op = out@;
            out.push(' ');
            proof {
                lemma_drop_spaces_push(op, ' ');
                assert(drop_spaces(op) + Seq::<char>::empty() =~= drop_spaces(op));
            }
        }
        let w = &group[i];
        let mut k: usize = 0;
        let ghost base = out@.len();
        let ghost opre = out@;
        while k < w.len()
            invariant
                k <= w@.len(),
                out@.len() == base + k,
                out@ == opre + w@.take(k as int),
            decreases w@.len() - k,
        {
            let ghost obefore = out@;
            out.push(w[k]);
            proof {
                assert(w@.take(k + 1) =~= w@.take(k as int).push(w@[k as int]));
                assert(obefore.push(w@[k as int]) =~= opre + w@.take(k + 1));
            }
            k += 1;
        }
        proof {
            assert(w@.take(w@.len() as int) =~= w@);
            lemma_drop_spaces_concat(opre, w@);
            lemma_drop_spaces_id(w@);
            assert(drop_spaces(out@) =~= cat(group@.take(i + 1)));
            if i > 0 {
                assert(opre =~= joined_pre + seq![' ']);
                assert(out@ =~= joined_pre + seq![' '] + group@[i as int]@);
            } else {
                assert(out@ =~= group@[0]@);
            }
            assert(out@ =~= spec_joined_prefix(group@, i + 1));
        }
        i += 1;
    }
    proof {
        assert(group@.take(n as int) =~= group@);
        lemma_words_of_joined(group@);
    }
    chars_to_string(&out)
}

/// The non-whitespace content of a run of display lines, concatenated.
pub open spec fn lines_content(lines: Seq<String>) -> Seq<char>
    decreases lines.len(),
{
    if lines.len() == 0 {
        Seq::<char>::empty()
    } else {
        lines_content(lines.drop_last()) + drop_spaces(lines.last()@)
    }
}

proof fn lemma_lines_content_push(lines: Seq<String>, l: String)
    ensures
        lines_content(lines.push(l)) == lines_content(lines) + drop_spaces(l@),
{
    assert(lines.push(l).drop_last() =~= lines);
    assert(lines.push(l).last() == l);
}

proof fn lemma_lines_content_concat(a: Seq<String>, b: Seq<String>)
    ensures
        lines_content(a + b) == lines_content(a) + lines_content(b),
    decreases b.len(),
{
    if b.len() == 0 {
        assert(a + b =~= a);
        assert(lines_content(a) + lines_content(b) =~= lines_content(a));
    } else {
        lemma_lines_content_concat(a, b.drop_last());
        assert((a + b).drop_last() =~= a + b.drop_last());
        assert((a + b).last() == b.last());
        assert((lines_content(a) + lines_content(b.drop_last())) + drop_spaces(b.last()@)
            =~= lines_content(a) + (lines_content(b.drop_last()) + drop_spaces(b.last()@)));
    }
}

/// The whitespace-separated tokens of a sequence, in order.
pub open spec fn spec_words(s: Seq<char>) -> Seq<Seq<char>>
    decreases s.len(),
{
    if s.len() == 0 {
        Seq::<Seq<char>>::empty()
    } else if is_space_char(s[0]) {
        spec_words(s.skip(1))
    } else {
        let rest = spec_words(s.skip(1));
        if s.len() > 1 && !is_space_char(s[1]) {
            seq![seq![s[0]] + rest.first()] + rest.skip(1)
        } else {
            seq![seq![s[0]]] + rest
        }
    }
}

/// A nonempty whitespace-free block at the front is one token.
proof fn lemma_words_cons_word(w: Seq<char>, s: Seq<char>)
    requires
        w.len() >= 1,
        no_space(w),
        s.len() == 0 || is_space_char(s[0]),
    ensures
        spec_words(w + s) == seq![w] + spec_words(s),
    decreases w.len(),
{
    let t = w + s;
    assert(t[0] == w[0]);
    assert(!is_space_char(t[0]));
    if w.len() == 1 {
        if s.len() == 0 {
            assert(t.len() == 1);
            assert(t.skip(1) =~= Seq::<char>::empty());
            assert(seq![t[0]] =~= w);
            assert(spec_words(t) == seq![seq![t[0]]] + spec_words(t.skip(1)));
            assert(spec_words(t.skip(1)) =~= Seq::<Seq<char>>::empty());
            assert(s =~= Seq::<char>::empty());
            assert(spec_words(s) =~= Seq::<Seq<char>>::empty());
            assert(seq![seq![t[0]]] + spec_words(t.skip(1)) =~= seq![w] + spec_words(s));
        } else {
            assert(t.len() > 1 && t[1] == s[0]);
            assert(is_space_char(t[1]));
            assert(t.skip(1) =~= s);
            assert(seq![t[0]] =~= w);
            assert(spec_words(t) == seq![seq![t[0]]] + spec_words(t.skip(1)));
            assert(spec_words(t.skip(1)) == spec_words(s));
            assert(seq![seq![t[0]]] + spec_words(s) =~= seq![w] + spec_words(s));
        }
    } else {
        assert(t.len() > 1 && t[1] == w[1]);
        assert(!is_space_char(t[1]));
        assert(t.skip(1) =~= w.skip(1) + s);
        assert forall|i: int| 0 <= i < w.skip(1).len() implies !is_space_char(
            #[trigger] w.skip(1)[i],
        ) by {
            assert(w.skip(1)[i] == w[i + 1]);
        }
        lemma_words_cons_word(w.skip(1), s);
        let rest = spec_words(t.skip(1));
        assert(rest == seq![w.skip(1)] + spec_words(s));
        assert(rest.first() == w.skip(1));
        assert(seq![t[0]] + rest.first() =~= w);
        assert(rest.skip(1) =~= spec_words(s));
        assert(spec_words(t) == seq![seq![t[0]] + rest.first()] + rest.skip(1));
        assert(spec_words(t) =~= seq![w] + spec_words(s));
    }
}

/// Leading whitespace contributes no token.
proof fn lemma_words_spaces_prefix(g: Seq<char>, s: Seq<char>)
    requires
        forall|i: int| 0 <= i < g.len() ==> is_space_char(#[trigger] g[i]),
    ensures
        spec_words(g + s) == spec_words(s),
    decreases g.len(),
{
    if g.len() == 0 {
        assert(g + s =~= s);
    } else {
        let t = g + s;
        assert(is_space_char(t[0]));
        assert(t.skip(1) =~= g.skip(1) + s);
        assert forall|i: int| 0 <= i < g.skip(1).len() implies is_space_char(
            #[trigger] g.skip(1)[i],
        ) by {
            assert(g.skip(1)[i] == g[i + 1]);
        }
        lemma_words_spaces_prefix(g.skip(1), s);
    }
}

proof fn lemma_word_views_cons(group: Seq<Vec<char>>)
    requires
        group.len() >= 1,
    ensures
        word_views(group) == seq![group[0]@] + word_views(group.skip(1)),
    decreases group.len(),
{
    if group.len() == 1 {
        assert(group.drop_last() =~= Seq::<Vec<char>>::empty());
        assert(group.skip(1) =~= Seq::<Vec<char>>::empty());
        assert(word_views(group) =~= seq![group[0]@] + word_views(group.skip(1)));
    } else {
        lemma_word_views_cons(group.drop_last());
        assert(group.drop_last()[0] == group[0]);
        assert(group.skip(1).drop_last() =~= group.drop_last().skip(1));
        assert(group.skip(1).last() == group.last());
        assert(word_views(group.skip(1)) == word_views(group.drop_last().skip(1)).push(
            group.last()@,
        ));
        assert((seq![group[0]@] + word_views(group.drop_last().skip(1))).push(group.last()@)
            =~= seq![group[0]@] + word_views(group.drop_last().skip(1)).push(group.last()@));
        assert(word_views(group) =~= seq![group[0]@] + word_views(group.skip(1)));
    }
}

/// Peeling the first word (and its gap) off a justified line.
proof fn lemma_justified_decomp(group: Seq<Vec<char>>, i: int, each: int, extra: int)
    requires
        group.len() >= 2,
        1 <= i <= group.len(),
    ensures
        spec_justified_prefix(group, i, each, extra) == group[0]@ + spaces_seq(
            each + (if 0 < extra {
                1int
            } else {
                0int
            }),
        ) + spec_justified_prefix(
            group.skip(1),
            i - 1,
            each,
            (if extra >= 1 {
                extra - 1
            } else {
                0int
            }),
        ),
    decreases i,
{
    let g0 = spaces_seq(each + (if 0 < extra {
        1int
    } else {
        0int
    }));
    let extra2 = if extra >= 1 {
        extra - 1
    } else {
        0int
    };
    if i == 1 {
        assert(spec_justified_prefix(group, 0, each, extra) =~= Seq::<char>::empty());
        assert(spec_justified_prefix(group.skip(1), 0, each, extra2) =~= Seq::<char>::empty());
        assert(spec_justified_prefix(group, 1, each, extra) =~= group[0]@ + g0);
        assert(group[0]@ + g0 + Seq::<char>::empty() =~= group[0]@ + g0);
    } else {
        lemma_justified_decomp(group, i - 1, each, extra);
        let gap_i = if i - 1 < group.len() - 1 {
            spaces_seq(each + (if i - 1 < extra {
                1int
            } else {
                0int
            }))
        } else {
            Seq::<char>::empty()
        };
        let gap_i2 = if i - 2 < group.skip(1).len() - 1 {
            spaces_seq(each + (if i - 2 < extra2 {
                1int
            } else {
                0int
            }))
        } else {
            Seq::<char>::empty()
        };
        assert(group.skip(1).len() == group.len() - 1);
        assert(gap_i =~= gap_i2);
        assert(group.skip(1)[i - 2] == group[i - 1]);
        let tail2 = spec_justified_prefix(group.skip(1), i - 2, each, extra2);
        assert(spec_justified_prefix(group, i, each, extra) == spec_justified_prefix(
            group,
            i - 1,
            each,
            extra,
        ) + group[i - 1]@ + gap_i);
        assert(spec_justified_prefix(group.skip(1), i - 1, each, extra2) == tail2 + group.skip(1)[i
            - 2]@ + gap_i2);
        assert((group[0]@ + g0 + tail2) + group[i - 1]@ + gap_i =~= group[0]@ + g0 + (tail2
            + group[i - 1]@ + gap_i2));
    }
}

/// Tokenizing a justified line recovers exactly its words.
proof fn lemma_words_of_justified(group: Seq<Vec<char>>, each: int, extra: int)
    requires
        group.len() >= 1,
        forall|i: int| 0 <= i < group.len() ==> (#[trigger] group[i])@.len() >= 1,
        forall|i: int| 0 <= i < group.len() ==> no_space((#[trigger] group[i])@),
        group.len() >= 2 ==> each >= 1,
    ensures
        spec_words(spec_justified_prefix(group, group.len() as int, each, extra)) == word_views(
            group,
        ),
    decreases group.len(),
{
    let n = group.len() as int;
    if n == 1 {
        assert(spec_justified_prefix(group, 0, each, extra) =~= Seq::<char>::empty());
        assert(spec_justified_prefix(group, 1, each, extra) =~= group[0]@);
        lemma_words_cons_word(group[0]@, Seq::<char>::empty());
        assert(group[0]@ + Seq::<char>::empty() =~= group[0]@);
        assert(spec_words(Seq::<char>::empty()) =~= Seq::<Seq<char>>::empty());
        assert(spec_words(group[0]@) =~= seq![group[0]@]);
        assert(group.drop_last() =~= Seq::<Vec<char>>::empty());
        assert(word_views(Seq::<Vec<char>>::empty()) =~= Seq::<Seq<char>>::empty());
        assert(group.last() == group[0]);
        assert(word_views(group) == word_views(group.drop_last()).push(group.last()@));
        assert(word_views(group) =~= seq![group[0]@]);
    } else {
        let extra2 = if extra >= 1 {
            extra - 1
        } else {
            0int
        };
        let g0len = each + (if 0 < extra {
            1int
        } else {
            0int
        });
        let sp = spaces_seq(g0len);
        lemma_justified_decomp(group, n, each, extra);
        let tail = spec_justified_prefix(group.skip(1), n - 1, each, extra2);
        assert forall|i: int|
            0 <= i < group.skip(1).len() implies (#[trigger] group.skip(1)[i])@.len() >= 1
                && no_space(group.skip(1)[i]@) by {
            assert(group.skip(1)[i] == group[i + 1]);
        }
        lemma_words_of_justified(group.skip(1), each, extra2);
        assert(sp.len() == g0len && g0len >= 1);
        assert(is_space_char(sp[0]));
        assert((sp + tail).len() >= 1 && (sp + tail)[0] == sp[0]);
        lemma_words_cons_word(group[0]@, sp + tail);
        assert(group[0]@ + sp + tail =~= group[0]@ + (sp + tail));
        assert forall|i: int| 0 <= i < sp.len() implies is_space_char(#[trigger] sp[i]) by {}
        lemma_words_spaces_prefix(sp, tail);
        lemma_word_views_cons(group);
        assert(spec_words(spec_justified_prefix(group, n, each, extra)) =~= word_views(group));
    }
}

/// Peeling the first word off a space-joined line.
proof fn lemma_joined_decomp(group: Seq<Vec<char>>, i: int)
    requires
        group.len() >= 2,
        2 <= i <= group.len(),
    ensures
        spec_joined_prefix(group, i) == group[0]@ + seq![' '] + spec_joined_prefix(
            group.skip(1),
            i - 1,
        ),
    decreases i,
{
    if i == 2 {
        assert(spec_joined_prefix(group, 1) == group[0]@);
        assert(spec_joined_prefix(group, 2) == group[0]@ + seq![' '] + group[1]@);
        assert(spec_joined_prefix(group.skip(1), 1) == group.skip(1)[0]@);
        assert(group.skip(1)[0] == group[1]);
    } else {
        lemma_joined_decomp(group, i - 1);
        assert(group.skip(1)[i - 2] == group[i - 1]);
        let tail2 = spec_joined_prefix(group.skip(1), i - 2);
        assert(spec_joined_prefix(group, i) == spec_joined_prefix(group, i - 1) + seq![' ']
            + group[i - 1]@);
        assert(spec_joined_prefix(group.skip(1), i - 1) == tail2 + seq![' '] + group.skip(1)[i
            - 2]@);
        assert((group[0]@ + seq![' '] + tail2) + seq![' '] + group[i - 1]@ =~= group[0]@
            + seq![' '] + (tail2 + seq![' '] + group[i - 1]@));
    }
}

/// Tokenizing a space-joined line recovers exactly its words.
proof fn lemma_words_of_joined(group: Seq<Vec<char>>)
    requires
        group.len() >= 1,
        forall|i: int| 0 <= i < group.len() ==> (#[trigger] group[i])@.len() >= 1,
        forall|i: int| 0 <= i < group.len() ==> no_space((#[trigger] group[i])@),
    ensures
        spec_words(spec_joined_prefix(group, group.len() as int)) == word_views(group),
    decreases group.len(),
{
    let n = group.len() as int;
    if n == 1 {
        assert(spec_joined_prefix(group, 1) == group[0]@);
        lemma_words_cons_word(group[0]@, Seq::<char>::empty());
        assert(group[0]@ + Seq::<char>::empty() =~= group[0]@);
        assert(spec_words(Seq::<char>::empty()) =~= Seq::<Seq<char>>::empty());
        assert(spec_words(group[0]@) =~= seq![group[0]@]);
        assert(group.drop_last() =~= Seq::<Vec<char>>::empty());
        assert(word_views(Seq::<Vec<char>>::empty()) =~= Seq::<Seq<char>>::empty());
        assert(group.last() == group[0]);
        assert(word_views(group) == word_views(group.drop_last()).push(group.last()@));
        assert(word_views(group) =~= seq![group[0]@]);
    } else {
        lemma_joined_decomp(group, n);
        let tail = spec_joined_prefix(group.skip(1), n - 1);
        assert forall|i: int|
            0 <= i < group.skip(1).len() implies (#[trigger] group.skip(1)[i])@.len() >= 1
                && no_space(group.skip(1)[i]@) by {
            assert(group.skip(1)[i] == group[i + 1]);
        }
        lemma_words_of_joined(group.skip(1));
        let sp = seq![' '];
        assert(is_space_char(sp[0]));
        assert((sp + tail).len() >= 1 && (sp + tail)[0] == sp[0]);
        lemma_words_cons_word(group[0]@, sp + tail);
        assert(group[0]@ + sp + tail =~= group[0]@ + (sp + tail));
        assert forall|i: int| 0 <= i < sp.len() implies is_space_char(#[trigger] sp[i]) by {}
        lemma_words_spaces_prefix(sp, tail);
        lemma_word_views_cons(group);
        assert(spec_words(spec_joined_prefix(group, n)) =~= word_views(group));
    }
}

/// A paragraph separator (a blank line: two consecutive newlines)
/// stands at position `j`.
pub open spec fn sep_at(s: Seq<char>, j: int) -> bool {
    0 <= j && j + 2 <= s.len() && s[j] == '\n' && s[j + 1] == '\n'
}

/// The position of the first paragraph separator at or after `from`, or
/// the sequence's length when there is none.
pub open spec fn first_sep_from(s: Seq<char>, from: int) -> int
    decreases s.len() - from,
{
    if from + 2 > s.len() {
        s.len() as int
    } else if sep_at(s, from) {
        from
    } else {
        first_sep_from(s, from + 1)
    }
}

/// The `"\n\n"`-separated paragraphs of a text, splitting at the
/// leftmost separator each time.
pub open spec fn spec_paragraphs(s: Seq<char>) -> Seq<Seq<char>>
    decreases s.len(),
{
    let j = first_sep_from(s, 0);
    if sep_at(s, j) {
        seq![s.take(j)] + spec_paragraphs(s.skip(j + 2))
    } else {
        seq![s]
    }
}

proof fn lemma_first_sep_found(s: Seq<char>, from: int, j: int)
    requires
        0 <= from <= j,
        sep_at(s, j),
        forall|t: int| from <= t < j ==> !sep_at(s, t),
    ensures
        first_sep_from(s, from) == j,
    decreases j - from,
{
    if from < j {
        lemma_first_sep_found(s, from + 1, j);
    }
}

proof fn lemma_first_sep_none(s: Seq<char>, from: int)
    requires
        0 <= from <= s.len(),
        forall|t: int| !sep_at(s, t),
    ensures
        first_sep_from(s, from) == s.len(),
    decreases s.len() - from,
{
    if from + 2 <= s.len() {
        lemma_first_sep_none(s, from + 1);
    }
}

/// The display lines realize the paragraphs one after the other: each
/// paragraph contributes a contiguous run of nonempty lines, closed by
/// exactly one blank line, and nothing else appears. The run's lines
/// carry exactly the paragraph's non-whitespace content, and — line by
/// line — their whitespace-separated tokens are exactly the paragraph's
/// tokens in order, each token longer than the width replaced, in place,
/// by its consecutive width-sized chunks. So no word is lost, duplicated,
/// reordered, joined with a neighbour or split short: only spacing
/// changes.
pub open spec fn spec_para_runs(lines: Seq<String>, paras: Seq<Seq<char>>, width: int) -> bool
    decreases paras.len(),
{
    if paras.len() == 0 {
        lines.len() == 0
    } else {
        exists|k: int|
            #![trigger lines.take(k)]
            {
                &&& 0 <= k < lines.len()
                &&& (forall|i: int| 0 <= i < k ==> (#[trigger] lines[i])@.len() > 0)
                &&& lines[k]@.len() == 0
                &&& lines_content(lines.take(k)) == drop_spaces(paras[0])
                &&& spec_lines_tokens(lines.take(k)) == spec_chunk_all(spec_words(paras[0]), width)
                &&& spec_para_runs(lines.skip(k + 1), paras.skip(1), width)
            }
    }
}

/// Appending one paragraph's run of lines extends a valid realization.
proof fn lemma_para_runs_snoc(
    l1: Seq<String>,
    b: Seq<String>,
    paras: Seq<Seq<char>>,
    p: Seq<char>,
    width: int,
)
    requires
        spec_para_runs(l1, paras, width),
        b.len() >= 1,
        forall|i: int| 0 <= i < b.len() - 1 ==> (#[trigger] b[i])@.len() > 0,
        b.last()@.len() == 0,
        lines_content(b.take(b.len() - 1)) == drop_spaces(p),
        spec_lines_tokens(b.take(b.len() - 1)) == spec_chunk_all(spec_words(p), width),
    ensures
        spec_para_runs(l1 + b, paras.push(p), width),
    decreases paras.len(),
{
    assert(paras.push(p)[0] == (if paras.len() == 0 {
        p
    } else {
        paras[0]
    }));
    if paras.len() == 0 {
        assert(l1.len() == 0);
        assert(l1 + b =~= b);
        let k0 = b.len() - 1;
        assert(paras.push(p).skip(1) =~= Seq::<Seq<char>>::empty());
        assert(b.skip(k0 + 1) =~= Seq::<String>::empty());
        assert(spec_para_runs(b.skip(k0 + 1), paras.push(p).skip(1), width));
        assert((l1 + b).take(k0) =~= b.take(k0));
        assert(lines_content((l1 + b).take(k0)) == drop_spaces(paras.push(p)[0]));
        assert(spec_lines_tokens((l1 + b).take(k0)) == spec_chunk_all(
            spec_words(paras.push(p)[0]),
            width,
        ));
        assert(forall|i: int| 0 <= i < k0 ==> ((l1 + b)[i])@.len() > 0);
        assert((l1 + b)[k0]@.len() == 0);
        assert(spec_para_runs(l1 + b, paras.push(p), width));
    } else {
        let k = choose|k: int|
            #![trigger l1.take(k)]
            {
                &&& 0 <= k < l1.len()
                &&& (forall|i: int| 0 <= i < k ==> (#[trigger] l1[i])@.len() > 0)
                &&& l1[k]@.len() == 0
                &&& lines_content(l1.take(k)) == drop_spaces(paras[0])
                &&& spec_lines_tokens(l1.take(k)) == spec_chunk_all(spec_words(paras[0]), width)
                &&& spec_para_runs(l1.skip(k + 1), paras.skip(1), width)
            };
        lemma_para_runs_snoc(l1.skip(k + 1), b, paras.skip(1), p, width);
        assert((l1 + b).take(k) =~= l1.take(k));
        assert((l1 + b).skip(k + 1) =~= l1.skip(k + 1) + b);
        assert(paras.push(p).skip(1) =~= paras.skip(1).push(p));
        assert(spec_para_runs((l1 + b).skip(k + 1), paras.push(p).skip(1), width));
        assert(0 <= k < (l1 + b).len());
        assert forall|i: int| 0 <= i < k implies ((l1 + b)[i])@.len() > 0 by {
            assert((l1 + b)[i] == l1[i]);
        }
        assert((l1 + b)[k]@.len() == 0);
        assert(lines_content((l1 + b).take(k)) == drop_spaces(paras.push(p)[0]));
        assert(spec_lines_tokens((l1 + b).take(k)) == spec_chunk_all(
            spec_words(paras.push(p)[0]),
            width,
        ));
        assert(spec_para_runs(l1 + b, paras.push(p), width));
    }
}

/// The tokens of a run of display lines, line by line, concatenated.
pub open spec fn spec_lines_tokens(lines: Seq<String>) -> Seq<Seq<char>>
    decreases lines.len(),
{
    if lines.len() == 0 {
        Seq::<Seq<char>>::empty()
    } else {
        spec_lines_tokens(lines.drop_last()) + spec_words(lines.last()@)
    }
}

proof fn lemma_lines_tokens_push(lines: Seq<String>, l: String)
    ensures
        spec_lines_tokens(lines.push(l)) == spec_lines_tokens(lines) + spec_words(l@),
{
    assert(lines.push(l).drop_last() =~= lines);
    assert(lines.push(l).last() == l);
}

/// Greedily fills lines with the paragraph's (already cut) words: a line
/// is flushed fully justified as soon as the next word would overflow
/// it; the last line is joined with single spaces; one blank line closes
/// the paragraph. Everything pushed fits the width, and the blank line
/// comes last.
fn fill_paragraph(words: &Vec<Vec<char>>, width: usize, lines: &mut Vec<String>)
    requires
        width >= 1,
        forall|i: int| 0 <= i < words@.len() ==> 1 <= #[trigger] words@[i]@.len() <= width,
        forall|i: int| 0 <= i < words@.len() ==> no_space(#[trigger] words@[i]@),
    ensures
        final(lines)@.len() > old(lines)@.len(),
        final(lines)@.subrange(0, old(lines)@.len() as int) == old(lines)@,
        forall|i: int|
            old(lines)@.len() <= i < final(lines)@.len() ==> #[trigger] final(lines)@[i]@.len()
                <= width,
        forall|i: int|
            old(lines)@.len() <= i < final(lines)@.len() - 1 ==> #[trigger] final(lines)@[i]@.len()
                > 0,
        final(lines)@.last()@.len() == 0,
        lines_content(
            final(lines)@.subrange(old(lines)@.len() as int, final(lines)@.len() as int),
        ) == cat(words@),
        spec_lines_tokens(
            final(lines)@.subrange(old(lines)@.len() as int, final(lines)@.len() as int),
        ) == word_views(words@),
{
    let ghost orig = lines@;
    let mut group: Vec<Vec<char>> = Vec::new();
    let mut len: u128 = 0;
    let mut j: usize = 0;
    proof {
        assert(words@.take(0) =~= Seq::<Vec<char>>::empty());
        assert(lines@.subrange(orig.len() as int, lines@.len() as int)
            =~= Seq::<String>::empty());
        assert(word_views(Seq::<Vec<char>>::empty()) =~= Seq::<Seq<char>>::empty());
        assert(spec_lines_tokens(Seq::<String>::empty()) =~= Seq::<Seq<char>>::empty());
    }
    while j < words.len()
        invariant
            width >= 1,
            j <= words@.len(),
            forall|i: int| 0 <= i < words@.len() ==> 1 <= #[trigger] words@[i]@.len() <= width,
            forall|i: int| 0 <= i < words@.len() ==> no_space(#[trigger] words@[i]@),
            forall|i: int| 0 <= i < group@.len() ==> 1 <= #[trigger] group@[i]@.len() <= width,
            forall|i: int| 0 <= i < group@.len() ==> no_space(#[trigger] group@[i]@),
            len == sum_lens(group@) + group@.len(),
            group@.len() > 0 ==> len - 1 <= width,
            group@.len() == 0 ==> len == 0,
            lines@.len() >= orig.len(),
            lines@.subrange(0, orig.len() as int) == orig,
            forall|i: int| orig.len() <= i < lines@.len() ==> #[trigger] lines@[i]@.len() <= width,
            forall|i: int| orig.len() <= i < lines@.len() ==> #[trigger] lines@[i]@.len() > 0,
            lines_content(lines@.subrange(orig.len() as int, lines@.len() as int)) + cat(group@)
                == cat(words@.take(j as int)),
            spec_lines_tokens(lines@.subrange(orig.len() as int, lines@.len() as int))
                + word_views(group@) == word_views(words@.take(j as int)),
        decreases words@.len() - j,
    {
        let w = &words[j];
        let wlen: u128 = w.len() as u128;
        proof {
            lemma_sum_lens_min(group@);
            lemma_cat_prefix(words@, j + 1);
            lemma_word_views_prefix(words@, j + 1);
        }
        if len + wlen > width as u128 {
            let flushed = justify_line(&group, width);
            let ghost lpre = lines@;
            lines.push(flushed);
            proof {
                assert(lines@.subrange(0, orig.len() as int) =~= orig);
                assert(lines@.subrange(orig.len() as int, lines@.len() as int) =~= lpre.subrange(
                    orig.len() as int,
                    lpre.len() as int,
                ).push(lines@.last()));
                lemma_lines_content_push(
                    lpre.subrange(orig.len() as int, lpre.len() as int),
                    lines@.last(),
                );
                lemma_lines_tokens_push(
                    lpre.subrange(orig.len() as int, lpre.len() as int),
                    lines@.last(),
                );
            }
            group = Vec::new();
            len = 0;
            proof {
                assert(cat(group@) =~= Seq::<char>::empty());
                assert(word_views(group@) =~= Seq::<Seq<char>>::empty());
                assert(lines_content(lines@.subrange(orig.len() as int, lines@.len() as int))
                    + cat(group@) =~= cat(words@.take(j as int)));
                assert(spec_lines_tokens(lines@.subrange(orig.len() as int, lines@.len() as int))
                    + word_views(group@) =~= word_views(words@.take(j as int)));
            }
        }
        let copy = copy_range(w, 0, w.len());
        let ghost gpre = group@;
        proof {
            assert(copy@ =~= w@);
        }
        group.push(copy);
        proof {
            assert(group@.drop_last() =~= gpre);
            assert(sum_lens(Seq::<Vec<char>>::empty()) == 0);
            assert(group@.last() == copy);
            lemma_cat_push(gpre, copy);
            lemma_word_views_push(gpre, copy);
            assert(lines_content(lines@.subrange(orig.len() as int, lines@.len() as int)) + cat(
                group@,
            ) =~= cat(words@.take(j + 1)));
            assert(spec_lines_tokens(lines@.subrange(orig.len() as int, lines@.len() as int))
                + word_views(group@) =~= word_views(words@.take(j + 1)));
        }
        len = len + wlen + 1;
        j += 1;
    }
    proof {
        assert(words@.take(words@.len() as int) =~= words@);
    }
    if group.len() > 0 {
        proof {
            lemma_sum_lens_min(group@);
        }
        let last = join_spaces(&group, width);
        let ghost lpre = lines@;
        lines.push(last);
        proof {
            assert(lines@.subrange(0, orig.len() as int) =~= orig);
            assert(lines@.subrange(orig.len() as int, lines@.len() as int) =~= lpre.subrange(
                orig.len() as int,
                lpre.len() as int,
            ).push(lines@.last()));
            lemma_lines_content_push(
                lpre.subrange(orig.len() as int, lpre.len() as int),
                lines@.last(),
            );
            lemma_lines_tokens_push(
                lpre.subrange(orig.len() as int, lpre.len() as int),
                lines@.last(),
            );
        }
    } else {
        proof {
            assert(cat(group@) =~= Seq::<char>::empty());
            assert(word_views(group@) =~= Seq::<Seq<char>>::empty());
            assert(lines_content(lines@.subrange(orig.len() as int, lines@.len() as int))
                =~= lines_content(lines@.subrange(orig.len() as int, lines@.len() as int)) + cat(
                group@,
            ));
            assert(spec_lines_tokens(lines@.subrange(orig.len() as int, lines@.len() as int))
                =~= spec_lines_tokens(lines@.subrange(orig.len() as int, lines@.len() as int))
                + word_views(group@));
        }
    }
    let ghost lpre = lines@;
    lines.push(String::new());
    proof {
        assert(lines@.subrange(0, orig.len() as int) =~= orig);
        assert(lines@.subrange(orig.len() as int, lines@.len() as int) =~= lpre.subrange(
            orig.len() as int,
            lpre.len() as int,
        ).push(lines@.last()));
        lemma_lines_content_push(
            lpre.subrange(orig.len() as int, lpre.len() as int),
            lines@.last(),
        );
        lemma_lines_tokens_push(
            lpre.subrange(orig.len() as int, lpre.len() as int),
            lines@.last(),
        );
        lemma_drop_spaces_empty();
        assert(lines_content(lines@.subrange(orig.len() as int, lines@.len() as int)) =~= cat(
            words@,
        ));
        assert(spec_words(lines@.last()@) =~= Seq::<Seq<char>>::empty());
        assert(spec_lines_tokens(lines@.subrange(orig.len() as int, lines@.len() as int))
            =~= word_views(words@));
    }
}

/// Justifies a text into display-ready lines of at most `line_width`
/// characters: paragraphs (separated by blank lines) are filled
/// greedily, full lines are padded to exactly the width, and each
/// paragraph is followed by one blank line — so there is always at least
/// one line and the last one is blank.
/// What one paragraph's freshly appended block of lines looks like: the
/// old lines kept, then at least one line, all but the last nonempty,
/// the last blank, and the block carrying the given content.
proof fn lemma_new_block(lpre: Seq<String>, lcur: Seq<String>, content: Seq<char>, toks: Seq<Seq<char>>)
    requires
        lcur.len() > lpre.len(),
        lcur.subrange(0, lpre.len() as int) == lpre,
        forall|i: int| lpre.len() <= i < lcur.len() - 1 ==> (#[trigger] lcur[i])@.len() > 0,
        lcur.last()@.len() == 0,
        lines_content(lcur.subrange(lpre.len() as int, lcur.len() as int)) == content,
        spec_lines_tokens(lcur.subrange(lpre.len() as int, lcur.len() as int)) == toks,
    ensures
        ({
            let b = lcur.subrange(lpre.len() as int, lcur.len() as int);
            &&& lcur == lpre + b
            &&& b.len() >= 1
            &&& forall|i: int| 0 <= i < b.len() - 1 ==> (#[trigger] b[i])@.len() > 0
            &&& b.last()@.len() == 0
            &&& lines_content(b.take(b.len() - 1)) == content
            &&& spec_lines_tokens(b.take(b.len() - 1)) == toks
        }),
{
    let b = lcur.subrange(lpre.len() as int, lcur.len() as int);
    assert(lcur =~= lpre + b);
    assert(b.last() == lcur.last());
    assert forall|i: int| 0 <= i < b.len() - 1 implies (#[trigger] b[i])@.len() > 0 by {
        assert(b[i] == lcur[lpre.len() + i]);
    }
    assert(b.take(b.len() - 1) =~= b.drop_last());
    assert(b.drop_last().push(b.last()) =~= b);
    lemma_lines_content_push(b.drop_last(), b.last());
    lemma_lines_tokens_push(b.drop_last(), b.last());
    lemma_drop_spaces_empty();
    assert(b.last()@ =~= Seq::<char>::empty());
    assert(lines_content(b) == lines_content(b.drop_last()) + drop_spaces(b.last()@));
    assert(lines_content(b.drop_last()) + Seq::<char>::empty() =~= lines_content(b.drop_last()));
    assert(spec_words(b.last()@) =~= Seq::<Seq<char>>::empty());
    assert(spec_lines_tokens(b) == spec_lines_tokens(b.drop_last()) + spec_words(b.last()@));
    assert(spec_lines_tokens(b.drop_last()) + Seq::<Seq<char>>::empty() =~= spec_lines_tokens(
        b.drop_last(),
    ));
}

pub fn justify(text: &str, line_width: usize) -> (r: Vec<String>)
    requires
        line_width >= 1,
    ensures
        r@.len() >= 1,
        forall|i: int| 0 <= i < r@.len() ==> #[trigger] r@[i]@.len() <= line_width,
        r@.last()@.len() == 0,
        lines_content(r@) == drop_spaces(text@),
        spec_para_runs(r@, spec_paragraphs(text@), line_width as int),
{
    let chars = str_chars(text);
    let n = chars.len();
    let mut lines: Vec<String> = Vec::new();
    let mut start: usize = 0;
    let mut done = false;
    let ghost mut paras_done: Seq<Seq<char>> = Seq::<Seq<char>>::empty();
    proof {
        assert(chars@.take(0) =~= Seq::<char>::empty());
        lemma_drop_spaces_empty();
        assert(chars@.skip(0) =~= chars@);
        assert(paras_done + spec_paragraphs(chars@.skip(0)) =~= spec_paragraphs(chars@));
        assert(spec_para_runs(lines@, paras_done, line_width as int));
    }
    while !done
        invariant
            start <= n,
            n == chars@.len(),
            line_width >= 1,
            forall|i: int| 0 <= i < lines@.len() ==> #[trigger] lines@[i]@.len() <= line_width,
            done ==> lines@.len() >= 1 && lines@.last()@.len() == 0,
            !done ==> lines_content(lines@) == drop_spaces(chars@.take(start as int)),
            done ==> lines_content(lines@) == drop_spaces(chars@),
            !done ==> spec_paragraphs(chars@) == paras_done + spec_paragraphs(
                chars@.skip(start as int),
            ),
            !done ==> spec_para_runs(lines@, paras_done, line_width as int),
            done ==> spec_para_runs(lines@, spec_paragraphs(chars@), line_width as int),
        decreases n - start, (if done {
            0int
        } else {
            1int
        }),
    {
        let mut j: usize = start;
        let mut sep: bool = false;
        while n - j >= 2 && !sep
            invariant
                start <= j <= n,
                n == chars@.len(),
                sep ==> j + 2 <= n && chars@[j as int] == '\n' && chars@[j + 1] == '\n',
                forall|t: int| start <= t < j ==> !sep_at(chars@, t),
            decreases n - j, (if sep {
                0int
            } else {
                1int
            }),
        {
            if chars[j] == '\n' && chars[j + 1] == '\n' {
                sep = true;
            } else {
                j += 1;
            }
        }
        let ghost lpre = lines@;
        if sep {
            let para = copy_range(&chars, start, j);
            let words = split_words(&para);
            let chunked = chunk_words(&words, line_width);
            fill_paragraph(&chunked, line_width, &mut lines);
            proof {
                let suffix = lines@.subrange(lpre.len() as int, lines@.len() as int);
                assert(lines@ =~= lpre + suffix);
                lemma_lines_content_concat(lpre, suffix);
                // the paragraph's characters, then the blank separator pair
                assert(chars@.take(j as int) =~= chars@.take(start as int) + chars@.subrange(
                    start as int,
                    j as int,
                ));
                lemma_drop_spaces_concat(
                    chars@.take(start as int),
                    chars@.subrange(start as int, j as int),
                );
                let seppair = chars@.subrange(j as int, j + 2);
                assert(chars@.take(j + 2) =~= chars@.take(j as int) + seppair);
                lemma_drop_spaces_concat(chars@.take(j as int), seppair);
                assert(seppair =~= Seq::<char>::empty().push('\n').push('\n'));
                lemma_drop_spaces_push(Seq::<char>::empty().push('\n'), '\n');
                lemma_drop_spaces_push(Seq::<char>::empty(), '\n');
                assert(drop_spaces(seppair) =~= Seq::<char>::empty());
                assert(lines_content(lines@) =~= drop_spaces(chars@.take(j + 2)));
                let rem = chars@.skip(start as int);
                assert forall|t: int| 0 <= t < j - start implies !sep_at(rem, t) by {
                    assert(!sep_at(chars@, start + t));
                    assert(rem[t] == chars@[start + t]);
                    if t + 2 <= rem.len() {
                        assert(rem[t + 1] == chars@[start + t + 1]);
                    }
                }
                assert(sep_at(rem, j - start)) by {
                    assert(rem[j - start] == chars@[j as int]);
                    assert(rem[j - start + 1] == chars@[j + 1]);
                }
                lemma_first_sep_found(rem, 0, j - start);
                let pv = chars@.subrange(start as int, j as int);
                assert(rem.take(j - start) =~= pv);
                assert(rem.skip(j - start + 2) =~= chars@.skip(j + 2));
                assert(spec_paragraphs(rem) == seq![pv] + spec_paragraphs(chars@.skip(j + 2)));
                lemma_new_block(lpre, lines@, cat(chunked@), word_views(chunked@));
                let b = lines@.subrange(lpre.len() as int, lines@.len() as int);
                assert(lines_content(b.take(b.len() - 1)) == drop_spaces(pv));
                assert(spec_lines_tokens(b.take(b.len() - 1)) == spec_chunk_all(
                    spec_words(pv),
                    line_width as int,
                ));
                lemma_para_runs_snoc(lpre, b, paras_done, pv, line_width as int);
                assert(spec_para_runs(lines@, paras_done.push(pv), line_width as int));
                assert(paras_done + (seq![pv] + spec_paragraphs(chars@.skip(j + 2)))
                    =~= paras_done.push(pv) + spec_paragraphs(chars@.skip(j + 2)));
                paras_done = paras_done.push(pv);
            }
            start = j + 2;
        } else {
            let para = copy_range(&chars, start, n);
            let words = split_words(&para);
            let chunked = chunk_words(&words, line_width);
            fill_paragraph(&chunked, line_width, &mut lines);
            proof {
                let suffix = lines@.subrange(lpre.len() as int, lines@.len() as int);
                assert(lines@ =~= lpre + suffix);
                lemma_lines_content_concat(lpre, suffix);
                assert(chars@ =~= chars@.take(start as int) + chars@.subrange(
                    start as int,
                    n as int,
                ));
                lemma_drop_spaces_concat(
                    chars@.take(start as int),
                    chars@.subrange(start as int, n as int),
                );
                assert(lines_content(lines@) =~= drop_spaces(chars@));
                let rem = chars@.skip(start as int);
                assert forall|t: int| !sep_at(rem, t) by {
                    if 0 <= t < j - start {
                        assert(!sep_at(chars@, start + t));
                        assert(rem[t] == chars@[start + t]);
                        if t + 2 <= rem.len() {
                            assert(rem[t + 1] == chars@[start + t + 1]);
                        }
                    } else if t >= j - start && t + 2 <= rem.len() {
                        assert(start + t + 2 <= n && start + t >= j && n - j < 2);
                    }
                }
                lemma_first_sep_none(rem, 0);
                assert(spec_paragraphs(rem) == seq![rem]);
                assert(chars@.subrange(start as int, n as int) =~= rem);
                lemma_new_block(lpre, lines@, cat(chunked@), word_views(chunked@));
                let b = lines@.subrange(lpre.len() as int, lines@.len() as int);
                assert(lines_content(b.take(b.len() - 1)) == drop_spaces(rem));
                assert(spec_lines_tokens(b.take(b.len() - 1)) == spec_chunk_all(
                    spec_words(rem),
                    line_width as int,
                ));
                lemma_para_runs_snoc(lpre, b, paras_done, rem, line_width as int);
                assert(spec_para_runs(lines@, paras_done.push(rem), line_width as int));
                assert(paras_done + seq![rem] =~= paras_done.push(rem));
                assert(spec_paragraphs(chars@) == paras_done.push(rem));
                assert(spec_para_runs(lines@, spec_paragraphs(chars@), line_width as int));
            }
            done = true;
        }
        proof {
            assert forall|i: int|
                0 <= i < lines@.len() implies #[trigger] lines@[i]@.len() <= line_width by {
                if i < lpre.len() {
                    assert(lines@[i] == lines@.subrange(0, lpre.len() as int)[i]);
                }
            }
        }
    }
    lines
}

} // verus!
