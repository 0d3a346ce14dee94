//! Fuzzy subsequence matching with word-boundary scoring.
//!
//! A pattern matches a text when its characters appear in the text in order,
//! compared case-insensitively; the match is found by a single greedy
//! left-to-right scan that always takes the first equal character. Each
//! matched character earns bonuses for standing at the start of the text, on
//! a word boundary, or right after the previous match, and a penalty of one
//! point per character skipped since the previous match.

use vstd::prelude::*;

use crate::casefold::char_is_lowercase;
use crate::casefold::char_is_uppercase;
use crate::casefold::chars_of;
use crate::casefold::fold_chars;
use crate::casefold::folded;
use crate::casefold::is_lower_char;
use crate::casefold::is_upper_char;

verus! {

/// Result of a fuzzy match: a score (higher is better) and the positions of
/// the matched characters in the target text, one per pattern character.
#[derive(Debug, Clone)]
pub struct FuzzyMatch {
    /// Match score.
    pub score: i128,
    /// Character indices of the matched characters in the target.
    pub indices: Vec<usize>,
}

/// Characters that end a word, for the word-boundary bonus.
pub open spec fn is_separator(c: char) -> bool {
    c == '_' || c == '-' || c == ' ' || c == '/' || c == '\\' || c == '.'
}

/// A word boundary: the start of the text, a position right after a
/// separator, or a lowercase-to-uppercase (camel-case) transition.
pub open spec fn word_boundary_at(text: Seq<char>, i: int) -> bool
    recommends
        0 <= i < text.len(),
{
    ||| i == 0
    ||| is_separator(text[i - 1])
    ||| (is_lower_char(text[i - 1]) && is_upper_char(text[i]))
}

/// The positions that the greedy left-to-right scan matches, scanning the
/// text from `ti` on with the pattern cursor at `pi`: every text character
/// equal to the current pattern character is taken, and the scan never
/// backtracks.
pub open spec fn greedy_from(pat: Seq<char>, txt: Seq<char>, pi: int, ti: int) -> Seq<int>
    decreases txt.len() - ti,
{
    if pi >= pat.len() || ti >= txt.len() {
        Seq::empty()
    } else if txt[ti] == pat[pi] {
        seq![ti] + greedy_from(pat, txt, pi + 1, ti + 1)
    } else {
        greedy_from(pat, txt, pi, ti + 1)
    }
}

/// The positions the greedy scan matches over the whole text.
pub open spec fn greedy_positions(pat: Seq<char>, txt: Seq<char>) -> Seq<int> {
    greedy_from(pat, txt, 0, 0)
}

/// Whether the greedy scan embeds the whole pattern in the text.
pub open spec fn greedy_matches(pat: Seq<char>, txt: Seq<char>) -> bool {
    greedy_positions(pat, txt).len() == pat.len()
}

/// The points the match at `pos[k]` contributes: +8 at the very start of the
/// text, +10 on a word boundary, and +5 right after the previous match or -1
/// per character skipped since the previous match.
pub open spec fn position_points(text: Seq<char>, pos: Seq<int>, k: int) -> int
    recommends
        0 <= k < pos.len(),
{
    (if pos[k] == 0 { 8int } else { 0int }) + (if word_boundary_at(text, pos[k]) { 10int } else {
        0int
    }) + (if k > 0 {
        if pos[k] == pos[k - 1] + 1 {
            5int
        } else {
            -(pos[k] - pos[k - 1] - 1)
        }
    } else {
        0int
    })
}

/// The points of the first `k` matched positions together.
pub open spec fn points_prefix(text: Seq<char>, pos: Seq<int>, k: int) -> int
    decreases k,
{
    if k <= 0 {
        0
    } else {
        points_prefix(text, pos, k - 1) + position_points(text, pos, k - 1)
    }
}

/// The score of a full match at positions `pos`: a flat +10 for matching the
/// whole pattern, plus the points of every matched position.
pub open spec fn match_score(text: Seq<char>, pos: Seq<int>) -> int {
    10 + points_prefix(text, pos, pos.len() as int)
}

/// What matching a pattern against a target reports: `None` exactly when the
/// greedy scan over the folded texts does not embed the whole folded
/// pattern; an empty pattern matches trivially with score 0 and no
/// positions.
pub open spec fn match_outcome(pattern: Seq<char>, target: Seq<char>) -> Option<(int, Seq<int>)> {
    if !greedy_matches(folded(pattern), folded(target)) {
        None
    } else if pattern.len() == 0 {
        Some((0, Seq::<int>::empty()))
    } else {
        let pos = greedy_positions(folded(pattern), folded(target));
        Some((match_score(target, pos), pos))
    }
}

/// The outcome that a returned `FuzzyMatch` stands for.
pub open spec fn result_outcome(r: Option<FuzzyMatch>) -> Option<(int, Seq<int>)> {
    match r {
        Some(m) => Some((m.score as int, m.indices@.map_values(|u: usize| u as int))),
        None => None,
    }
}

/// An embedding of the pattern's tail from `pi` on into the text's tail from
/// `ti` on: one position per remaining pattern character, strictly
/// increasing, each holding the pattern character it stands for.
pub open spec fn embeds_from(pat: Seq<char>, txt: Seq<char>, pi: int, ti: int, m: Seq<int>) -> bool {
    &&& m.len() == pat.len() - pi
    &&& forall|k: int|
        0 <= k < m.len() ==> (ti <= #[trigger] m[k] && m[k] < txt.len() && txt[m[k]] == pat[pi + k])
    &&& forall|k: int| 0 < k < m.len() ==> m[k - 1] < #[trigger] m[k]
}

/// An embedding of the whole pattern into the text.
pub open spec fn embeds(pat: Seq<char>, txt: Seq<char>, m: Seq<int>) -> bool {
    embeds_from(pat, txt, 0, 0, m)
}

/// Whether the pattern's characters appear in the text in order, not
/// necessarily contiguously.
pub open spec fn is_subsequence_of(pat: Seq<char>, txt: Seq<char>) -> bool {
    exists|m: Seq<int>| embeds(pat, txt, m)
}

/// What the greedy scan returns is itself a partial embedding: at most one
/// position per remaining pattern character, strictly increasing, within the
/// scanned range, each holding the pattern character it stands for.
pub proof fn lemma_greedy_shape(pat: Seq<char>, txt: Seq<char>, pi: int, ti: int)
    requires
        0 <= pi <= pat.len(),
        0 <= ti,
    ensures
        greedy_from(pat, txt, pi, ti).len() <= pat.len() - pi,
        forall|k: int|
            0 <= k < greedy_from(pat, txt, pi, ti).len() ==> (ti <= #[trigger] greedy_from(
                pat,
                txt,
                pi,
                ti,
            )[k] && greedy_from(pat, txt, pi, ti)[k] < txt.len() && txt[greedy_from(
                pat,
                txt,
                pi,
                ti,
            )[k]] == pat[pi + k]),
        forall|k: int|
            0 < k < greedy_from(pat, txt, pi, ti).len() ==> greedy_from(pat, txt, pi, ti)[k - 1]
                < #[trigger] greedy_from(pat, txt, pi, ti)[k],
    decreases txt.len() - ti,
{
    if pi >= pat.len() || ti >= txt.len() {
    } else if txt[ti] == pat[pi] {
        lemma_greedy_shape(pat, txt, pi + 1, ti + 1);
        let g = greedy_from(pat, txt, pi, ti);
        let g1 = greedy_from(pat, txt, pi + 1, ti + 1);
        assert(g == seq![ti] + g1);
        assert forall|k: int| 0 <= k < g.len() implies (ti <= #[trigger] g[k] && g[k] < txt.len()
            && txt[g[k]] == pat[pi + k]) by {
            if k == 0 {
                assert(g[0] == ti);
            } else {
                assert(g[k] == g1[k - 1]);
            }
        }
        assert forall|k: int| 0 < k < g.len() implies g[k - 1] < #[trigger] g[k] by {
            if k == 1 {
                assert(g[0] == ti && g[1] == g1[0]);
            } else {
                assert(g[k - 1] == g1[k - 2] && g[k] == g1[k - 1]);
            }
        }
    } else {
        lemma_greedy_shape(pat, txt, pi, ti + 1);
    }
}

/// Where any embedding of the pattern's tail exists past `ti`, the greedy
/// scan matches the whole remaining pattern.
proof fn lemma_greedy_complete(pat: Seq<char>, txt: Seq<char>, pi: int, ti: int, m: Seq<int>)
    requires
        0 <= pi <= pat.len(),
        0 <= ti,
        embeds_from(pat, txt, pi, ti, m),
    ensures
        greedy_from(pat, txt, pi, ti).len() == pat.len() - pi,
    decreases txt.len() - ti,
{
    if pi == pat.len() {
    } else {
        assert(m.len() > 0);
        assert(ti <= m[0] && m[0] < txt.len() && txt[m[0]] == pat[pi]);
        if txt[ti] == pat[pi] {
            let m1 = m.drop_first();
            assert forall|k: int|
                0 <= k < m1.len() implies (ti + 1 <= #[trigger] m1[k] && m1[k] < txt.len()
                && txt[m1[k]] == pat[pi + 1 + k]) by {
                assert(m1[k] == m[k + 1]);
                assert(m[k] < m[k + 1]);
            }
            assert forall|k: int| 0 < k < m1.len() implies m1[k - 1] < #[trigger] m1[k] by {
                assert(m1[k - 1] == m[k] && m1[k] == m[k + 1]);
            }
            assert(embeds_from(pat, txt, pi + 1, ti + 1, m1));
            lemma_greedy_complete(pat, txt, pi + 1, ti + 1, m1);
            assert(greedy_from(pat, txt, pi, ti) == seq![ti] + greedy_from(
                pat,
                txt,
                pi + 1,
                ti + 1,
            ));
        } else {
            assert(m[0] != ti);
            assert forall|k: int|
                0 <= k < m.len() implies (ti + 1 <= #[trigger] m[k] && m[k] < txt.len() && txt[m[k]]
                == pat[pi + k]) by {
                if k > 0 {
                    assert(m[k - 1] < m[k]);
                }
            }
            assert(embeds_from(pat, txt, pi, ti + 1, m));
            lemma_greedy_complete(pat, txt, pi, ti + 1, m);
            assert(greedy_from(pat, txt, pi, ti) == greedy_from(pat, txt, pi, ti + 1));
        }
    }
}

/// A non-empty pattern that is a case-insensitive subsequence of the text is
/// matched: the outcome carries one strictly increasing position per pattern
/// character, all within the text.
pub proof fn lemma_subsequence_matches(pattern: Seq<char>, target: Seq<char>)
    requires
        pattern.len() > 0,
        is_subsequence_of(folded(pattern), folded(target)),
    ensures
        match_outcome(pattern, target) matches Some(v) && {
            let pos = v.1;
            &&& pos.len() == pattern.len()
            &&& forall|k: int| 0 <= k < pos.len() ==> 0 <= #[trigger] pos[k] < target.len()
            &&& forall|k: int| 0 < k < pos.len() ==> pos[k - 1] < #[trigger] pos[k]
        },
{
    let p = folded(pattern);
    let t = folded(target);
    let m = choose|m: Seq<int>| embeds(p, t, m);
    lemma_greedy_complete(p, t, 0, 0, m);
    lemma_greedy_shape(p, t, 0, 0);
    assert(p.len() == pattern.len());
    assert(t.len() == target.len());
}

/// A matched pattern is a case-insensitive subsequence of the text: the
/// greedy scan's own positions embed it.
pub proof fn lemma_match_is_subsequence(pattern: Seq<char>, target: Seq<char>)
    requires
        greedy_matches(folded(pattern), folded(target)),
    ensures
        is_subsequence_of(folded(pattern), folded(target)),
        embeds(folded(pattern), folded(target), greedy_positions(folded(pattern), folded(target))),
{
    let p = folded(pattern);
    let t = folded(target);
    lemma_greedy_shape(p, t, 0, 0);
    assert(embeds(p, t, greedy_positions(p, t)));
}

/// A pattern that is not a case-insensitive subsequence of the text is not
/// matched: the outcome is `None`.
pub proof fn lemma_no_match_without_subsequence(pattern: Seq<char>, target: Seq<char>)
    requires
        !is_subsequence_of(folded(pattern), folded(target)),
    ensures
        match_outcome(pattern, target) is None,
{
    if greedy_matches(folded(pattern), folded(target)) {
        lemma_match_is_subsequence(pattern, target);
    }
}

/// The empty pattern matches every text, with score 0 and no positions.
pub proof fn lemma_empty_pattern_matches(target: Seq<char>)
    ensures
        match_outcome(Seq::<char>::empty(), target) == Some((0int, Seq::<int>::empty())),
{
    assert(folded(Seq::<char>::empty()).len() == 0);
}

/// Appending a position does not change the points of the positions already
/// counted.
proof fn lemma_points_prefix_push(text: Seq<char>, pos: Seq<int>, x: int, k: int)
    requires
        0 <= k <= pos.len(),
    ensures
        points_prefix(text, pos.push(x), k) == points_prefix(text, pos, k),
    decreases k,
{
    if k > 0 {
        lemma_points_prefix_push(text, pos, x, k - 1);
        assert(pos.push(x)[k - 1] == pos[k - 1]);
        if k - 1 > 0 {
            assert(pos.push(x)[k - 2] == pos[k - 2]);
        }
    }
}

/// Whether position `idx` of the text starts a word: position 0, a position
/// right after a separator, or a camel-case transition.
fn is_word_boundary(chars: &Vec<char>, idx: usize) -> (r: bool)
    requires
        idx < chars@.len(),
    ensures
        r == word_boundary_at(chars@, idx as int),
{
    if idx == 0 {
        return true;
    }
    let prev = chars[idx - 1];
    let curr = chars[idx];

    if prev == '_' || prev == '-' || prev == ' ' || prev == '/' || prev == '\\' || prev == '.' {
        return true;
    }

    if char_is_lowercase(prev) && char_is_uppercase(curr) {
        return true;
    }

    false
}

/// Matches `pattern` against `target` as a case-insensitive subsequence, by
/// one greedy left-to-right scan, and scores the embedding it finds.
///
/// The scan commits to the first equal character it meets, even where a
/// later alignment would score higher: a deliberate trade of optimality for
/// a single linear pass.
pub fn fuzzy_match(pattern: &str, target: &str) -> (r: Option<FuzzyMatch>)
    ensures
        result_outcome(r) == match_outcome(pattern@, target@),
{
    let ghost p = folded(pattern@);
    let ghost t = folded(target@);

    let plen = pattern.unicode_len();
    if plen == 0 {
        proof {
            assert(greedy_from(p, t, 0, 0) == Seq::<int>::empty());
            assert(Seq::<usize>::empty().map_values(|u: usize| u as int) =~= Seq::<int>::empty());
        }
        return Some(FuzzyMatch { score: 0, indices: Vec::new() });
    }

    let pattern_chars = chars_of(pattern);
    let pattern_lower = fold_chars(&pattern_chars);
    let target_chars = chars_of(target);
    let target_lower = fold_chars(&target_chars);
    let tlen = target_chars.len();

    let mut indices: Vec<usize> = Vec::new();
    let mut score: i128 = 0;
    let mut pattern_idx: usize = 0;
    let mut last_match_idx: Option<usize> = None;
    let mut target_idx: usize = 0;

    while target_idx < tlen && pattern_idx < plen
        invariant
            pattern_lower@ == p,
            target_lower@ == t,
            target_chars@ == target@,
            plen == p.len(),
            tlen == t.len(),
            t.len() == target@.len(),
            pattern_idx <= plen,
            target_idx <= tlen,
            indices@.len() == pattern_idx,
            indices@.len() <= target_idx,
            last_match_idx matches Some(l) ==> indices@.len() > 0 && l == indices@.last() && (
            l as int) < target_idx,
            last_match_idx is None ==> indices@.len() == 0,
            greedy_from(p, t, 0, 0) == indices@.map_values(|u: usize| u as int) + greedy_from(
                p,
                t,
                pattern_idx as int,
                target_idx as int,
            ),
            score == points_prefix(
                target@,
                indices@.map_values(|u: usize| u as int),
                indices@.len() as int,
            ),
            indices@.len() == 0 ==> score == 0,
            indices@.len() > 0 ==> -(indices@.last() as int) <= score <= 23 * indices@.len(),
        decreases tlen - target_idx,
    {
        let tc = target_lower[target_idx];
        let pc = pattern_lower[pattern_idx];
        if tc == pc {
            proof {
                assert(greedy_from(p, t, pattern_idx as int, target_idx as int) == seq![
                    target_idx as int,
                ] + greedy_from(p, t, pattern_idx as int + 1, target_idx as int + 1));
            }
            let ghost old_indices = indices@;
            let ghost old_score = score;
            let ghost oldm = old_indices.map_values(|u: usize| u as int);

            indices.push(target_idx);
            let ghost newm = indices@.map_values(|u: usize| u as int);

            if target_idx == 0 {
                score = score + 8;
            }
            if is_word_boundary(&target_chars, target_idx) {
                score = score + 10;
            }
            match last_match_idx {
                Some(l) => {
                    if target_idx == l + 1 {
                        score = score + 5;
                    } else {
                        let gap = target_idx - l - 1;
                        score = score - (gap as i128);
                    }
                },
                None => {},
            }

            proof {
                assert(newm =~= oldm.push(target_idx as int));
                lemma_points_prefix_push(target@, oldm, target_idx as int, oldm.len() as int);
                assert(points_prefix(target@, newm, newm.len() as int) == points_prefix(
                    target@,
                    newm,
                    oldm.len() as int,
                ) + position_points(target@, newm, oldm.len() as int));
                assert(score == old_score + position_points(target@, newm, oldm.len() as int));
                assert((oldm + (seq![target_idx as int] + greedy_from(
                    p,
                    t,
                    pattern_idx as int + 1,
                    target_idx as int + 1,
                ))) =~= (newm + greedy_from(
                    p,
                    t,
                    pattern_idx as int + 1,
                    target_idx as int + 1,
                )));
            }

            last_match_idx = Some(target_idx);
            pattern_idx = pattern_idx + 1;
        } else {
            proof {
                assert(greedy_from(p, t, pattern_idx as int, target_idx as int) == greedy_from(
                    p,
                    t,
                    pattern_idx as int,
                    target_idx as int + 1,
                ));
            }
        }
        target_idx = target_idx + 1;
    }

    proof {
        assert(greedy_from(p, t, pattern_idx as int, target_idx as int) == Seq::<int>::empty());
        assert(greedy_from(p, t, 0, 0) =~= indices@.map_values(|u: usize| u as int));
    }

    if pattern_idx == plen {
        score = score + 10;
        Some(FuzzyMatch { score, indices })
    } else {
        None
    }
}

} // verus!
