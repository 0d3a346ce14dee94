//! Splitting a text into runs around matched positions, for rendering: the
//! computation behind match highlighting.
//!
//! A matched position outside the text is skipped rather than trusted: a
//! correct matcher never produces one, but a renderer must not fault on one
//! either.

use vstd::prelude::*;

use crate::casefold::folded;
use crate::search::greedy_matches;
use crate::search::lemma_greedy_shape;
use crate::search::match_outcome;

verus! {

/// The runs that a text splits into, scanning the matched positions from `k`
/// on with the copy cursor at `last_end`: each matched character is a run of
/// its own carrying `true`, the text between matches a run carrying `false`.
/// A position outside the text is skipped; the cursor ends just past each
/// matched character, and whatever is left of the text past the last match
/// is one final unmatched run.
pub open spec fn highlight_runs_from(c: Seq<char>, m: Seq<int>, k: int, last_end: int) -> Seq<
    (Seq<char>, bool),
>
    recommends
        0 <= last_end <= c.len(),
    decreases m.len() - k,
{
    if k >= m.len() {
        if last_end < c.len() {
            seq![(c.subrange(last_end, c.len() as int), false)]
        } else {
            Seq::empty()
        }
    } else if !(0 <= m[k] && m[k] < c.len()) {
        highlight_runs_from(c, m, k + 1, last_end)
    } else {
        (if m[k] > last_end {
            seq![(c.subrange(last_end, m[k]), false)]
        } else {
            Seq::empty()
        }) + seq![(seq![c[m[k]]], true)] + highlight_runs_from(c, m, k + 1, m[k] + 1)
    }
}

/// The characters of a sequence of runs, concatenated.
pub open spec fn runs_text(rs: Seq<(Seq<char>, bool)>) -> Seq<char>
    decreases rs.len(),
{
    if rs.len() == 0 {
        Seq::empty()
    } else {
        rs[0].0 + runs_text(rs.drop_first())
    }
}

/// The characters of a single run.
proof fn lemma_runs_text_singleton(run: (Seq<char>, bool))
    ensures
        runs_text(seq![run]) == run.0,
{
    let s = seq![run];
    assert(s.drop_first() =~= Seq::<(Seq<char>, bool)>::empty());
    assert(runs_text(Seq::<(Seq<char>, bool)>::empty()) == Seq::<char>::empty());
    assert(runs_text(s) == run.0 + Seq::<char>::empty());
    assert(run.0 + Seq::<char>::empty() =~= run.0);
}

/// Run concatenation splits over sequence concatenation.
proof fn lemma_runs_text_concat(a: Seq<(Seq<char>, bool)>, b: Seq<(Seq<char>, bool)>)
    ensures
        runs_text(a + b) == runs_text(a) + runs_text(b),
    decreases a.len(),
{
    if a.len() == 0 {
        assert(a + b =~= b);
        assert(runs_text(a) + runs_text(b) =~= runs_text(b));
    } else {
        lemma_runs_text_concat(a.drop_first(), b);
        assert((a + b).drop_first() =~= a.drop_first() + b);
        assert((a + b)[0] == a[0]);
        assert(runs_text(a + b) == a[0].0 + (runs_text(a.drop_first()) + runs_text(b)));
        assert(a[0].0 + (runs_text(a.drop_first()) + runs_text(b)) =~= (a[0].0 + runs_text(
            a.drop_first(),
        )) + runs_text(b));
    }
}

/// Strictly increasing in-range positions past `k` leave the splitting
/// lossless: the runs spell out the text from the cursor to its end.
proof fn lemma_runs_reconstruct_from(c: Seq<char>, m: Seq<int>, k: int, last_end: int)
    requires
        0 <= k,
        0 <= last_end <= c.len(),
        forall|j: int| k <= j < m.len() ==> last_end <= #[trigger] m[j] < c.len(),
        forall|j1: int, j2: int| k <= j1 < j2 < m.len() ==> #[trigger] m[j1] < #[trigger] m[j2],
    ensures
        runs_text(highlight_runs_from(c, m, k, last_end)) == c.subrange(
            last_end,
            c.len() as int,
        ),
    decreases m.len() - k,
{
    if k >= m.len() {
        if last_end < c.len() {
            lemma_runs_text_singleton((c.subrange(last_end, c.len() as int), false));
        } else {
            assert(runs_text(highlight_runs_from(c, m, k, last_end)) =~= c.subrange(
                last_end,
                c.len() as int,
            ));
        }
    } else {
        let mk = m[k];
        assert(last_end <= mk < c.len());
        lemma_runs_reconstruct_from(c, m, k + 1, mk + 1);
        let seg: Seq<(Seq<char>, bool)> = if mk > last_end {
            seq![(c.subrange(last_end, mk), false)]
        } else {
            Seq::empty()
        };
        let mid: Seq<(Seq<char>, bool)> = seq![(seq![c[mk]], true)];
        let rest = highlight_runs_from(c, m, k + 1, mk + 1);
        assert(highlight_runs_from(c, m, k, last_end) == seg + mid + rest);
        lemma_runs_text_concat(seg + mid, rest);
        lemma_runs_text_concat(seg, mid);
        lemma_runs_text_singleton((seq![c[mk]], true));
        if mk > last_end {
            lemma_runs_text_singleton((c.subrange(last_end, mk), false));
        } else {
            assert(runs_text(seg) =~= Seq::<char>::empty());
        }
        assert(runs_text(seg) + runs_text(mid) + runs_text(rest) =~= c.subrange(
            last_end,
            c.len() as int,
        ));
    }
}

/// The splitting is lossless: for strictly increasing positions that lie
/// within the text, as every full match reports them, the runs together
/// spell out exactly the whole text.
pub proof fn lemma_highlight_runs_reconstruct(c: Seq<char>, m: Seq<int>)
    requires
        forall|j: int| 0 <= j < m.len() ==> 0 <= #[trigger] m[j] < c.len(),
        forall|j: int| 0 < j < m.len() ==> m[j - 1] < #[trigger] m[j],
    ensures
        runs_text(highlight_runs_from(c, m, 0, 0)) == c,
{
    assert forall|j1: int, j2: int| 0 <= j1 < j2 < m.len() implies #[trigger] m[j1] < #[trigger] m[j2] by {
        lemma_increasing_chain(m, j1, j2);
    }
    lemma_runs_reconstruct_from(c, m, 0, 0);
    assert(c.subrange(0, c.len() as int) =~= c);
}

/// The positions of any match are safe to render: the runs they split the
/// target into spell out exactly the whole target.
pub proof fn lemma_match_positions_render_losslessly(
    pattern: Seq<char>,
    target: Seq<char>,
    score: int,
    pos: Seq<int>,
)
    requires
        match_outcome(pattern, target) == Some((score, pos)),
    ensures
        runs_text(highlight_runs_from(target, pos, 0, 0)) == target,
{
    if pattern.len() > 0 {
        let p = folded(pattern);
        let t = folded(target);
        assert(greedy_matches(p, t));
        lemma_greedy_shape(p, t, 0, 0);
        assert(t.len() == target.len());
    }
    lemma_highlight_runs_reconstruct(target, pos);
}

/// Adjacent increases chain into a strict order.
proof fn lemma_increasing_chain(m: Seq<int>, j1: int, j2: int)
    requires
        forall|j: int| 0 < j < m.len() ==> m[j - 1] < #[trigger] m[j],
        0 <= j1 < j2 < m.len(),
    ensures
        m[j1] < m[j2],
    decreases j2 - j1,
{
    if j1 + 1 < j2 {
        lemma_increasing_chain(m, j1, j2 - 1);
    }
}

/// The view of one run: its characters and whether they are matched.
pub open spec fn run_view(run: (String, bool)) -> (Seq<char>, bool) {
    (run.0@, run.1)
}

/// Splits a text into runs around the matched positions, for rendering: each
/// matched character becomes a run of its own marked `true`, the unmatched
/// text between them runs marked `false`. A position outside the text is
/// skipped.
pub fn highlight_runs(text: &str, indices: &Vec<usize>) -> (r: Vec<(String, bool)>)
    ensures
        r@.map_values(|run: (String, bool)| run_view(run)) == highlight_runs_from(
            text@,
            indices@.map_values(|u: usize| u as int),
            0,
            0,
        ),
{
    let ghost c = text@;
    let ghost ms = indices@.map_values(|u: usize| u as int);

    let n = text.unicode_len();
    let mut r: Vec<(String, bool)> = Vec::new();
    let mut last_end: usize = 0;
    let mut k: usize = 0;

    while k < indices.len()
        invariant
            c == text@,
            ms == indices@.map_values(|u: usize| u as int),
            n == c.len(),
            k <= indices@.len(),
            last_end <= n,
            highlight_runs_from(c, ms, 0, 0) == r@.map_values(|run: (String, bool)| run_view(run))
                + highlight_runs_from(c, ms, k as int, last_end as int),
        decreases indices@.len() - k,
    {
        let ghost old_runs = r@.map_values(|run: (String, bool)| run_view(run));
        let ghost old_last = last_end as int;
        let idx = indices[k];
        if idx < n {
            proof {
                assert(highlight_runs_from(c, ms, k as int, old_last) == (if ms[k as int]
                    > old_last {
                    seq![(c.subrange(old_last, ms[k as int]), false)]
                } else {
                    Seq::<(Seq<char>, bool)>::empty()
                }) + seq![(seq![c[ms[k as int]]], true)] + highlight_runs_from(
                    c,
                    ms,
                    k as int + 1,
                    ms[k as int] + 1,
                ));
            }
            if idx > last_end {
                let seg = text.substring_char(last_end, idx).to_owned();
                r.push((seg, false));
            }
            let ch = text.substring_char(idx, idx + 1).to_owned();
            proof {
                assert(ch@ =~= seq![c[idx as int]]);
            }
            r.push((ch, true));
            last_end = idx + 1;
            proof {
                let new_runs = r@.map_values(|run: (String, bool)| run_view(run));
                if idx as int > old_last {
                    assert(new_runs =~= old_runs + seq![(c.subrange(old_last, idx as int), false)]
                        + seq![(seq![c[idx as int]], true)]);
                } else {
                    assert(new_runs =~= old_runs + seq![(seq![c[idx as int]], true)]);
                }
                assert(old_runs + highlight_runs_from(c, ms, k as int, old_last) =~= new_runs
                    + highlight_runs_from(c, ms, k as int + 1, idx as int + 1));
            }
        } else {
            proof {
                assert(highlight_runs_from(c, ms, k as int, old_last) == highlight_runs_from(
                    c,
                    ms,
                    k as int + 1,
                    old_last,
                ));
            }
        }
        k = k + 1;
    }

    let ghost done_runs = r@.map_values(|run: (String, bool)| run_view(run));
    if last_end < n {
        let tail = text.substring_char(last_end, n).to_owned();
        r.push((tail, false));
        proof {
            assert(r@.map_values(|run: (String, bool)| run_view(run)) =~= done_runs + seq![
                (c.subrange(last_end as int, c.len() as int), false),
            ]);
        }
    }
    r
}

} // verus!
