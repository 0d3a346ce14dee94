//! Ranking: the matcher applied across a command list, one outcome per
//! command, non-matches dropped, best score first.

use vstd::prelude::*;

use crate::command::Command;
use crate::search::fuzzy_match;
use crate::search::match_outcome;
use crate::search::result_outcome;
use crate::search::FuzzyMatch;

verus! {

/// The better of two outcomes; the first wins a tie, so that an earlier
/// field takes precedence.
pub open spec fn better(a: Option<(int, Seq<int>)>, b: Option<(int, Seq<int>)>) -> Option<
    (int, Seq<int>),
> {
    match (a, b) {
        (Some(x), Some(y)) => if x.0 >= y.0 {
            Some(x)
        } else {
            Some(y)
        },
        (Some(x), None) => Some(x),
        (None, y) => y,
    }
}

/// The outcome of a command's optional description.
pub open spec fn description_outcome<Message>(q: Seq<char>, c: Command<Message>) -> Option<
    (int, Seq<int>),
> {
    match c.description {
        Some(d) => match_outcome(q, d@),
        None => None,
    }
}

/// The best outcome among the first `n` keywords; an earlier keyword wins a
/// tie.
pub open spec fn keywords_outcome_upto(q: Seq<char>, kws: Seq<String>, n: int) -> Option<
    (int, Seq<int>),
>
    decreases n,
{
    if n <= 0 {
        None
    } else {
        better(keywords_outcome_upto(q, kws, n - 1), match_outcome(q, kws[n - 1]@))
    }
}

/// A command's outcome: the best outcome over its name, its description and
/// its keywords, ties resolved in that order.
pub open spec fn command_outcome<Message>(q: Seq<char>, c: Command<Message>) -> Option<
    (int, Seq<int>),
> {
    better(
        match_outcome(q, c.name@),
        better(description_outcome(q, c), keywords_outcome_upto(q, c.keywords@, c.keywords@.len() as int)),
    )
}

/// How many of the first `n` commands match the query.
pub open spec fn matched_count<Message>(q: Seq<char>, cmds: Seq<Command<Message>>, n: int) -> int
    decreases n,
{
    if n <= 0 {
        0
    } else {
        matched_count(q, cmds, n - 1) + (if command_outcome(q, cmds[n - 1]) is Some {
            1int
        } else {
            0int
        })
    }
}

/// How many entries the ranking keeps for a query.
pub open spec fn ranked_len<Message>(q: Seq<char>, cmds: Seq<Command<Message>>) -> int {
    if q.len() == 0 {
        cmds.len() as int
    } else {
        matched_count(q, cmds, cmds.len() as int)
    }
}

/// The view of one ranked entry: original index, score, matched positions.
pub open spec fn entry_view(e: (usize, FuzzyMatch)) -> (int, int, Seq<int>) {
    (e.0 as int, e.1.score as int, e.1.indices@.map_values(|u: usize| u as int))
}

/// What the ranking of `cmds` under `q` is. For the empty query: every
/// command, in original order, with score 0 and no positions. Otherwise:
/// exactly the commands with an outcome, each entry carrying its command's
/// original index and exact outcome, sorted by descending score, equal
/// scores by ascending original index.
pub open spec fn is_ranking<Message>(
    q: Seq<char>,
    cmds: Seq<Command<Message>>,
    rs: Seq<(int, int, Seq<int>)>,
) -> bool {
    if q.len() == 0 {
        &&& rs.len() == cmds.len()
        &&& forall|j: int| 0 <= j < rs.len() ==> #[trigger] rs[j] == (j, 0int, Seq::<int>::empty())
    } else {
        &&& rs.len() == matched_count(q, cmds, cmds.len() as int)
        &&& forall|j: int|
            0 <= j < rs.len() ==> 0 <= (#[trigger] rs[j]).0 < cmds.len() && command_outcome(
                q,
                cmds[rs[j].0],
            ) == Some((rs[j].1, rs[j].2))
        &&& forall|j1: int, j2: int|
            0 <= j1 < j2 < rs.len() ==> (#[trigger] rs[j1]).1 > (#[trigger] rs[j2]).1 || (rs[j1].1
                == rs[j2].1 && rs[j1].0 < rs[j2].0)
        &&& forall|i: int|
            0 <= i < cmds.len() && #[trigger] command_outcome(q, cmds[i]) is Some ==> exists|j: int|
                0 <= j < rs.len() && (#[trigger] rs[j]).0 == i
    }
}

/// A match outcome for a non-empty pattern carries one position per pattern
/// character: folding keeps the length, and a full greedy scan matches every
/// pattern character.
proof fn lemma_outcome_positions_length(q: Seq<char>, t: Seq<char>)
    requires
        q.len() > 0,
    ensures
        match_outcome(q, t) matches Some(v) ==> v.1.len() == q.len(),
{
}

/// The best outcome among keywords carries one position per pattern
/// character too.
proof fn lemma_keywords_outcome_positions_length(q: Seq<char>, kws: Seq<String>, n: int)
    requires
        q.len() > 0,
    ensures
        keywords_outcome_upto(q, kws, n) matches Some(v) ==> v.1.len() == q.len(),
    decreases n,
{
    if n > 0 {
        lemma_keywords_outcome_positions_length(q, kws, n - 1);
        lemma_outcome_positions_length(q, kws[n - 1]@);
    }
}

/// Every entry the ranking keeps for a non-empty query carries one matched
/// position per query character: a kept candidate never comes with partial
/// positions.
pub proof fn lemma_ranked_positions_length<Message>(
    q: Seq<char>,
    cmds: Seq<Command<Message>>,
    rs: Seq<(int, int, Seq<int>)>,
    j: int,
)
    requires
        q.len() > 0,
        is_ranking(q, cmds, rs),
        0 <= j < rs.len(),
    ensures
        rs[j].2.len() == q.len(),
{
    let c = cmds[rs[j].0];
    lemma_outcome_positions_length(q, c.name@);
    match c.description {
        Some(d) => lemma_outcome_positions_length(q, d@),
        None => {},
    }
    lemma_keywords_outcome_positions_length(q, c.keywords@, c.keywords@.len() as int);
}

/// The first `j` entries of two rankings of the same commands under the same
/// non-empty query agree.
proof fn lemma_ranking_prefix_equal<Message>(
    q: Seq<char>,
    cmds: Seq<Command<Message>>,
    rs1: Seq<(int, int, Seq<int>)>,
    rs2: Seq<(int, int, Seq<int>)>,
    j: int,
)
    requires
        q.len() > 0,
        is_ranking(q, cmds, rs1),
        is_ranking(q, cmds, rs2),
        0 <= j <= rs1.len(),
    ensures
        forall|k: int| 0 <= k < j ==> rs1[k] == rs2[k],
    decreases j,
{
    if j > 0 {
        lemma_ranking_prefix_equal(q, cmds, rs1, rs2, j - 1);
        let t = j - 1;
        assert(rs1.len() == rs2.len());

        // this entry's command appears in the other ranking too
        let i1 = rs1[t].0;
        assert(command_outcome(q, cmds[i1]) is Some);
        let j2 = choose|j2: int| 0 <= j2 < rs2.len() && (#[trigger] rs2[j2]).0 == i1;
        assert(rs2[j2] == rs1[t]);

        if j2 < t {
            // it would stand twice in the first ranking, against its strict order
            assert(rs1[j2] == rs2[j2]);
            assert(rs1[j2].1 > rs1[t].1 || (rs1[j2].1 == rs1[t].1 && rs1[j2].0 < rs1[t].0));
            assert(false);
        } else if j2 > t {
            let i2 = rs2[t].0;
            assert(command_outcome(q, cmds[i2]) is Some);
            let j1 = choose|j1: int| 0 <= j1 < rs1.len() && (#[trigger] rs1[j1]).0 == i2;
            assert(rs1[j1] == rs2[t]);
            if j1 < t {
                // the other ranking would hold this command twice
                assert(rs2[j1] == rs1[j1]);
                assert(rs2[j1].1 > rs2[t].1 || (rs2[j1].1 == rs2[t].1 && rs2[j1].0 < rs2[t].0));
                assert(false);
            } else if j1 == t {
                assert(rs2[t].1 > rs2[j2].1 || (rs2[t].1 == rs2[j2].1 && rs2[t].0 < rs2[j2].0));
                assert(false);
            } else {
                // each ranking would place the other's entry strictly later:
                // both orders cannot hold at once
                assert(rs1[t].1 > rs1[j1].1 || (rs1[t].1 == rs1[j1].1 && rs1[t].0 < rs1[j1].0));
                assert(rs2[t].1 > rs2[j2].1 || (rs2[t].1 == rs2[j2].1 && rs2[t].0 < rs2[j2].0));
                assert(false);
            }
        }
    }
}

/// The ranking is one sequence and no other: any two sequences that rank the
/// same commands under the same query are equal. The contract of
/// `filter_commands` thus determines its result completely.
pub proof fn lemma_ranking_unique<Message>(
    q: Seq<char>,
    cmds: Seq<Command<Message>>,
    rs1: Seq<(int, int, Seq<int>)>,
    rs2: Seq<(int, int, Seq<int>)>,
)
    requires
        is_ranking(q, cmds, rs1),
        is_ranking(q, cmds, rs2),
    ensures
        rs1 == rs2,
{
    if q.len() == 0 {
        assert forall|k: int| 0 <= k < rs1.len() implies #[trigger] rs1[k] == rs2[k] by {
            assert(rs1[k] == (k, 0int, Seq::<int>::empty()));
            assert(rs2[k] == (k, 0int, Seq::<int>::empty()));
        }
        assert(rs1 =~= rs2);
    } else {
        lemma_ranking_prefix_equal(q, cmds, rs1, rs2, rs1.len() as int);
        assert(rs1 =~= rs2);
    }
}

/// The better of two match results; the first wins a tie, so that an earlier
/// field takes precedence.
fn best_of(a: Option<FuzzyMatch>, b: Option<FuzzyMatch>) -> (r: Option<FuzzyMatch>)
    ensures
        result_outcome(r) == better(result_outcome(a), result_outcome(b)),
{
    match a {
        Some(x) => match b {
            Some(y) => if x.score >= y.score {
                Some(x)
            } else {
                Some(y)
            },
            None => Some(x),
        },
        None => b,
    }
}

/// The best match for one command: its name, its description and each of its
/// keywords matched against the query, ties resolved in that order.
fn best_command_match<Message>(query: &str, c: &Command<Message>) -> (r: Option<FuzzyMatch>)
    ensures
        result_outcome(r) == command_outcome(query@, *c),
{
    let name_match = fuzzy_match(query, c.name.as_str());

    let desc_match = match &c.description {
        Some(d) => fuzzy_match(query, d.as_str()),
        None => None,
    };

    let mut keyword_match: Option<FuzzyMatch> = None;
    let mut k: usize = 0;
    while k < c.keywords.len()
        invariant
            k <= c.keywords@.len(),
            result_outcome(keyword_match) == keywords_outcome_upto(query@, c.keywords@, k as int),
        decreases c.keywords@.len() - k,
    {
        let m = fuzzy_match(query, c.keywords[k].as_str());
        keyword_match = best_of(keyword_match, m);
        k = k + 1;
    }

    best_of(name_match, best_of(desc_match, keyword_match))
}

/// Filters and sorts commands by fuzzy match score.
///
/// For the empty query: every command, in original order, with the trivial
/// empty match. Otherwise: exactly the commands on which some field matched,
/// best score first, equal scores in original order, each entry carrying the
/// command's original index and its exact match result.
pub fn filter_commands<Message>(query: &str, commands: &Vec<Command<Message>>) -> (r: Vec<
    (usize, FuzzyMatch),
>)
    ensures
        is_ranking(query@, commands@, r@.map_values(|e: (usize, FuzzyMatch)| entry_view(e))),
        r@.len() == ranked_len(query@, commands@),
        r@.len() <= commands@.len(),
{
    let ghost q = query@;
    let ghost cmds = commands@;

    if query.unicode_len() == 0 {
        let mut r: Vec<(usize, FuzzyMatch)> = Vec::new();
        let mut i: usize = 0;
        while i < commands.len()
            invariant
                i <= cmds.len(),
                cmds == commands@,
                r@.len() == i,
                forall|j: int|
                    0 <= j < i ==> entry_view(#[trigger] r@[j]) == (j, 0int, Seq::<int>::empty()),
            decreases cmds.len() - i,
        {
            r.push((i, FuzzyMatch { score: 0, indices: Vec::new() }));
            proof {
                assert(r@[i as int].1.indices@.map_values(|u: usize| u as int) =~= Seq::<
                    int,
                >::empty());
            }
            i = i + 1;
        }
        proof {
            let rv = r@.map_values(|e: (usize, FuzzyMatch)| entry_view(e));
            assert forall|j: int| 0 <= j < rv.len() implies #[trigger] rv[j] == (
                j,
                0int,
                Seq::<int>::empty(),
            ) by {
                assert(rv[j] == entry_view(r@[j]));
            }
        }
        return r;
    }

    let mut r: Vec<(usize, FuzzyMatch)> = Vec::new();
    let mut i: usize = 0;
    while i < commands.len()
        invariant
            q == query@,
            q.len() > 0,
            cmds == commands@,
            i <= cmds.len(),
            r@.len() == matched_count(q, cmds, i as int),
            r@.len() <= i,
            forall|j: int|
                0 <= j < r@.len() ==> 0 <= entry_view(#[trigger] r@[j]).0 < i && command_outcome(
                    q,
                    cmds[entry_view(r@[j]).0],
                ) == Some((entry_view(r@[j]).1, entry_view(r@[j]).2)),
            forall|j1: int, j2: int|
                0 <= j1 < j2 < r@.len() ==> entry_view(#[trigger] r@[j1]).1 > entry_view(
                    #[trigger] r@[j2],
                ).1 || (entry_view(r@[j1]).1 == entry_view(r@[j2]).1 && entry_view(r@[j1]).0
                    < entry_view(r@[j2]).0),
            forall|idx: int|
                0 <= idx < i && #[trigger] command_outcome(q, cmds[idx]) is Some ==> exists|j: int|
                    0 <= j < r@.len() && entry_view(#[trigger] r@[j]).0 == idx,
        decreases cmds.len() - i,
    {
        let m = best_command_match(query, &commands[i]);
        match m {
            Some(fm) => {
                let sc: i128 = fm.score;
                let ghost old_r = r@;

                let mut p: usize = 0;
                while p < r.len() && r[p].1.score >= sc
                    invariant
                        p <= r@.len(),
                        r@ == old_r,
                        forall|j: int| 0 <= j < p ==> entry_view(#[trigger] r@[j]).1 >= sc,
                    decreases r@.len() - p,
                {
                    p = p + 1;
                }
                proof {
                    assert(p == old_r.len() || entry_view(old_r[p as int]).1 < sc);
                }

                r.insert(p, (i, fm));

                proof {
                    let e = (i, fm);
                    assert(r@ == old_r.insert(p as int, e));
                    assert forall|j: int| 0 <= j < r@.len() implies #[trigger] r@[j] == (if j < p {
                        old_r[j]
                    } else if j == p {
                        e
                    } else {
                        old_r[j - 1]
                    }) by {
                        if j < p {
                            assert(old_r.insert(p as int, e)[j] == old_r[j]);
                        } else if j == p {
                            assert(old_r.insert(p as int, e)[j] == e);
                        } else {
                            assert(old_r.insert(p as int, e)[j] == old_r[j - 1]);
                        }
                    }
                    // the new entry carries this command's exact outcome
                    assert(command_outcome(q, cmds[i as int]) == Some(
                        (entry_view(e).1, entry_view(e).2),
                    ));
                    // entries after the insertion point score strictly below it
                    assert forall|j: int| p < j < r@.len() implies entry_view(r@[j]).1 < sc by {
                        if p < old_r.len() && j > p + 1 {
                            assert(entry_view(old_r[p as int]).1 > entry_view(old_r[j - 1]).1 || (
                            entry_view(old_r[p as int]).1 == entry_view(old_r[j - 1]).1
                                && entry_view(old_r[p as int]).0 < entry_view(old_r[j - 1]).0));
                        }
                    }
                    // every command that matched so far still has its entry
                    assert forall|idx: int|
                        0 <= idx < i + 1 && #[trigger] command_outcome(q, cmds[idx]) is Some implies exists|j: int|
                        0 <= j < r@.len() && entry_view(#[trigger] r@[j]).0 == idx by {
                        if idx == i {
                            assert(entry_view(r@[p as int]).0 == idx);
                        } else {
                            let j0 = choose|j: int|
                                0 <= j < old_r.len() && entry_view(#[trigger] old_r[j]).0 == idx;
                            if j0 < p {
                                assert(entry_view(r@[j0]).0 == idx);
                            } else {
                                assert(entry_view(r@[j0 + 1]).0 == idx);
                            }
                        }
                    }
                }
            },
            None => {},
        }
        i = i + 1;
    }

    proof {
        let rv = r@.map_values(|e: (usize, FuzzyMatch)| entry_view(e));
        assert(rv.len() == r@.len());
        assert forall|j: int| 0 <= j < rv.len() implies #[trigger] rv[j] == entry_view(r@[j]) by {}
        assert forall|idx: int|
            0 <= idx < cmds.len() && #[trigger] command_outcome(q, cmds[idx]) is Some implies exists|j: int|
            0 <= j < rv.len() && (#[trigger] rv[j]).0 == idx by {
            let j0 = choose|j: int| 0 <= j < r@.len() && entry_view(#[trigger] r@[j]).0 == idx;
            assert(rv[j0].0 == idx);
        }
    }
    r
}

/// The original command index standing at a display position of the ranked
/// list: `Some` exactly where the position is within the ranking, and then
/// an index whose command the ranking kept at that position.
pub fn get_filtered_command_index<Message>(
    query: &str,
    commands: &Vec<Command<Message>>,
    selected_display_index: usize,
) -> (r: Option<usize>)
    ensures
        r is Some <==> selected_display_index < ranked_len(query@, commands@),
        r matches Some(i) ==> exists|rs: Seq<(int, int, Seq<int>)>|
            {
                &&& #[trigger] is_ranking(query@, commands@, rs)
                &&& (selected_display_index as int) < rs.len()
                &&& rs[selected_display_index as int].0 == i
            },
{
    let filtered = filter_commands(query, commands);
    if selected_display_index < filtered.len() {
        let idx = filtered[selected_display_index].0;
        proof {
            let rs = filtered@.map_values(|e: (usize, FuzzyMatch)| entry_view(e));
            assert(rs[selected_display_index as int].0 == idx);
        }
        Some(idx)
    } else {
        None
    }
}

/// The number of commands the ranking keeps for a query.
pub fn get_filtered_count<Message>(query: &str, commands: &Vec<Command<Message>>) -> (r: usize)
    ensures
        r == ranked_len(query@, commands@),
{
    filter_commands(query, commands).len()
}

} // verus!
