//! Query ranking engine.
//!
//! A query returns a distance-ordered list of matches from the vector
//! store.  Scores are similarities scaled to millionths, higher is better.
//! The engine drops matches below a fixed relevance bar, boosts matches
//! whose command description names a trusted documentation source, groups
//! the survivors by command in arrival order, sorts the groups by score
//! (descending, stable), and returns at most three commands, the third cut
//! to its single best example.

use vstd::prelude::*;
use crate::parser::{ExamplePair, ExamplePairV};
use crate::text::{contains_seq, contains_chars, to_chars};

verus! {

/// A score of this many millionths is a perfect similarity of one.
pub const SCORE_SCALE: u32 = 1000000;

/// Matches scoring below this bar (0.7) are discarded.
pub const SCORE_THRESHOLD: u32 = 700000;

/// Numerator of the trusted-source boost factor (6/5 = 1.2).
pub const BOOST_NUM: u64 = 6;

/// Denominator of the trusted-source boost factor.
pub const BOOST_DEN: u64 = 5;

/// At most this many commands are returned per query.
pub const MAX_COMMANDS: usize = 3;

/// One row handed back by the vector store for a query, with its
/// similarity score in millionths.
#[derive(Debug, Clone, PartialEq, Eq)]
pub struct QueryMatch {
    pub command: String,
    pub description: String,
    pub example_description: String,
    pub example_command: String,
    pub score: u32,
}

/// Mathematical value of a [`QueryMatch`].
pub struct MatchV {
    pub command: Seq<char>,
    pub description: Seq<char>,
    pub example_description: Seq<char>,
    pub example_command: Seq<char>,
    pub score: u32,
}

impl DeepView for QueryMatch {
    type V = MatchV;

    open spec fn deep_view(&self) -> MatchV {
        MatchV {
            command: self.command@,
            description: self.description@,
            example_description: self.example_description@,
            example_command: self.example_command@,
            score: self.score,
        }
    }
}

/// One ranked command with its collected examples and final score.
#[derive(Debug, Clone, PartialEq, Eq)]
pub struct RankedAnswer {
    pub command: String,
    pub description: String,
    pub examples: Vec<ExamplePair>,
    pub score: u64,
}

/// Mathematical value of a [`RankedAnswer`].
pub struct AnswerV {
    pub command: Seq<char>,
    pub description: Seq<char>,
    pub examples: Seq<ExamplePairV>,
    pub score: u64,
}

impl DeepView for RankedAnswer {
    type V = AnswerV;

    open spec fn deep_view(&self) -> AnswerV {
        AnswerV {
            command: self.command@,
            description: self.description@,
            examples: self.examples.deep_view(),
            score: self.score,
        }
    }
}

/// Substrings that mark a description as coming from a trusted
/// documentation source.
pub open spec fn trusted_markers() -> Seq<Seq<char>> {
    seq![
        "gnu."@,
        "kernel."@,
        "man7."@,
        "manned."@,
        "linux."@,
        "man.openbsd"@,
        "man.freebsd"@,
        "greenwoodsoftware."@,
    ]
}

/// Whether a description names a trusted documentation source.
pub open spec fn is_trusted_desc(desc: Seq<char>) -> bool {
    exists|i: int|
        0 <= i < trusted_markers().len() && contains_seq(desc, #[trigger] trusted_markers()[i])
}

/// The score after the trusted-source boost: multiplied by 6/5 when the
/// source is trusted, unchanged otherwise.
pub open spec fn boosted_score(score: u32, trusted: bool) -> u64 {
    if trusted {
        ((score as int) * (BOOST_NUM as int) / (BOOST_DEN as int)) as u64
    } else {
        score as u64
    }
}

/// The boosted score of a match.
pub open spec fn boosted(m: MatchV) -> u64 {
    boosted_score(m.score, is_trusted_desc(m.description))
}

/// The example pair carried by a match.
pub open spec fn match_pair(m: MatchV) -> ExamplePairV {
    ExamplePairV { description: m.example_description, command_line: m.example_command }
}

/// Index of the first answer for `cmd`, or -1 if there is none.
pub open spec fn find_cmd(acc: Seq<AnswerV>, cmd: Seq<char>) -> int
    decreases acc.len(),
{
    if acc.len() == 0 {
        -1
    } else if acc[0].command == cmd {
        0
    } else {
        let r = find_cmd(acc.drop_first(), cmd);
        if r < 0 {
            -1
        } else {
            r + 1
        }
    }
}

/// Fold one match into the grouped answers: matches below the relevance
/// bar are dropped; a new command opens a new answer carrying the boosted
/// score; a known command only collects the example, keeping the score of
/// its first (best) match.
pub open spec fn group_step(acc: Seq<AnswerV>, m: MatchV) -> Seq<AnswerV> {
    if m.score < SCORE_THRESHOLD {
        acc
    } else {
        let j = find_cmd(acc, m.command);
        if j < 0 {
            acc.push(
                AnswerV {
                    command: m.command,
                    description: m.description,
                    examples: seq![match_pair(m)],
                    score: boosted(m),
                },
            )
        } else {
            acc.update(
                j,
                AnswerV {
                    command: acc[j].command,
                    description: acc[j].description,
                    examples: acc[j].examples.push(match_pair(m)),
                    score: acc[j].score,
                },
            )
        }
    }
}

/// Group a whole arrival-ordered match list.
pub open spec fn group_matches(ms: Seq<MatchV>) -> Seq<AnswerV>
    decreases ms.len(),
{
    if ms.len() == 0 {
        Seq::empty()
    } else {
        group_step(group_matches(ms.drop_last()), ms.last())
    }
}

/// Insert `x` behind every answer scoring at least as much: descending
/// order, stable for ties.
pub open spec fn insert_desc(x: AnswerV, s: Seq<AnswerV>) -> Seq<AnswerV>
    decreases s.len(),
{
    if s.len() == 0 {
        seq![x]
    } else if s[0].score >= x.score {
        seq![s[0]] + insert_desc(x, s.drop_first())
    } else {
        seq![x] + s
    }
}

/// Stable insertion sort by score, descending.
pub open spec fn sort_desc(s: Seq<AnswerV>) -> Seq<AnswerV>
    decreases s.len(),
{
    if s.len() == 0 {
        Seq::empty()
    } else {
        insert_desc(s.last(), sort_desc(s.drop_last()))
    }
}

/// The answer as returned at rank `idx`: the third command keeps only its
/// single best example.
pub open spec fn shape_answer(a: AnswerV, idx: int) -> AnswerV {
    if idx >= 2 {
        AnswerV {
            command: a.command,
            description: a.description,
            examples: a.examples.take(1),
            score: a.score,
        }
    } else {
        a
    }
}

/// At most three commands; the first two keep all their examples, the
/// third only its best one.
pub open spec fn shape_results(s: Seq<AnswerV>) -> Seq<AnswerV> {
    let top = if s.len() <= MAX_COMMANDS { s } else { s.take(MAX_COMMANDS as int) };
    Seq::new(top.len(), |i: int| shape_answer(top[i], i))
}

/// The whole ranking pipeline: threshold filter and boost, grouping,
/// stable descending sort, graduated truncation.
pub open spec fn rank_spec(ms: Seq<MatchV>) -> Seq<AnswerV> {
    shape_results(sort_desc(group_matches(ms)))
}

/// Whether a description names a trusted documentation source.
pub fn is_trusted_source(desc: &String) -> (r: bool)
    ensures
        r == is_trusted_desc(desc@),
{
    let dchars = to_chars(desc.as_str());
    let markers: [&str; 8] = [
        "gnu.",
        "kernel.",
        "man7.",
        "manned.",
        "linux.",
        "man.openbsd",
        "man.freebsd",
        "greenwoodsoftware.",
    ];
    let mut i: usize = 0;
    while i < 8
        invariant
            dchars@ == desc@,
            i <= 8,
            markers@.len() == 8,
            forall|k: int| 0 <= k < 8 ==> markers@[k]@ == trusted_markers()[k],
            forall|k: int| 0 <= k < i ==> !contains_seq(desc@, #[trigger] trusted_markers()[k]),
        decreases 8 - i,
    {
        let mk = to_chars(markers[i]);
        if contains_chars(&dchars, &mk) {
            proof {
                assert(contains_seq(desc@, trusted_markers()[i as int]));
            }
            return true;
        }
        i = i + 1;
    }
    false
}

proof fn lemma_find_cmd(acc: Seq<AnswerV>, cmd: Seq<char>)
    ensures
        find_cmd(acc, cmd) == -1 || 0 <= find_cmd(acc, cmd) < acc.len(),
        find_cmd(acc, cmd) == -1 ==> forall|i: int| 0 <= i < acc.len() ==> acc[i].command != cmd,
        find_cmd(acc, cmd) >= 0 ==> acc[find_cmd(acc, cmd)].command == cmd && forall|i: int|
            0 <= i < find_cmd(acc, cmd) ==> acc[i].command != cmd,
    decreases acc.len(),
{
    if acc.len() > 0 && acc[0].command != cmd {
        lemma_find_cmd(acc.drop_first(), cmd);
        let r = find_cmd(acc.drop_first(), cmd);
        if r < 0 {
            assert forall|i: int| 0 <= i < acc.len() implies acc[i].command != cmd by {
                if i > 0 {
                    assert(acc.drop_first()[i - 1] == acc[i]);
                }
            }
        } else {
            assert(acc.drop_first()[r] == acc[r + 1]);
            assert forall|i: int| 0 <= i < r + 1 implies acc[i].command != cmd by {
                if i > 0 {
                    assert(acc.drop_first()[i - 1] == acc[i]);
                }
            }
        }
    }
}

/// First answer already collected for `cmd`, if any.
fn find_command(acc: &Vec<RankedAnswer>, cmd: &String) -> (r: Option<usize>)
    ensures
        match r {
            Some(j) => j < acc@.len() && find_cmd(acc.deep_view(), cmd@) == j as int,
            None => find_cmd(acc.deep_view(), cmd@) == -1,
        },
{
    let n = acc.len();
    let mut j: usize = 0;
    while j < n
        invariant
            n == acc@.len(),
            j <= n,
            forall|i: int| 0 <= i < j ==> acc.deep_view()[i].command != cmd@,
        decreases n - j,
    {
        if cmd.eq(&acc[j].command) {
            proof {
                assert(acc.deep_view()[j as int].command == cmd@);
                lemma_find_cmd(acc.deep_view(), cmd@);
            }
            return Some(j);
        }
        j = j + 1;
    }
    proof {
        lemma_find_cmd(acc.deep_view(), cmd@);
    }
    None
}

/// First position whose score is below `score`; insertion there keeps the
/// list descending and is stable for ties.
fn find_insert_pos(sorted: &Vec<RankedAnswer>, score: u64) -> (r: usize)
    ensures
        r <= sorted@.len(),
        forall|i: int| 0 <= i < r ==> sorted.deep_view()[i].score >= score,
        r < sorted@.len() ==> sorted.deep_view()[r as int].score < score,
{
    let n = sorted.len();
    let mut p: usize = 0;
    while p < n
        invariant
            n == sorted@.len(),
            p <= n,
            forall|i: int| 0 <= i < p ==> sorted.deep_view()[i].score >= score,
        decreases n - p,
    {
        if sorted[p].score < score {
            return p;
        }
        p = p + 1;
    }
    p
}

proof fn lemma_insert_desc_at(s: Seq<AnswerV>, x: AnswerV, p: int)
    requires
        0 <= p <= s.len(),
        forall|i: int| 0 <= i < p ==> s[i].score >= x.score,
        p < s.len() ==> s[p].score < x.score,
    ensures
        insert_desc(x, s) == s.insert(p, x),
    decreases s.len(),
{
    if s.len() == 0 {
        assert(seq![x] =~= s.insert(0, x));
    } else if p == 0 {
        assert(s[0].score < x.score);
        assert(seq![x] + s =~= s.insert(0, x));
    } else {
        assert(s[0].score >= x.score);
        assert(forall|i: int| 0 <= i < p - 1 ==> s.drop_first()[i] == s[i + 1]);
        lemma_insert_desc_at(s.drop_first(), x, p - 1);
        assert(seq![s[0]] + s.drop_first().insert(p - 1, x) =~= s.insert(p, x));
    }
}

/// Rank the matches of one query.  The result is exactly
/// [`rank_spec`] of the input: the same matches always produce the same
/// ordered answers.
pub fn rank(matches: &Vec<QueryMatch>) -> (r: Vec<RankedAnswer>)
    ensures
        r.deep_view() == rank_spec(matches.deep_view()),
{
    let ghost msv = matches.deep_view();
    let n = matches.len();

    // Threshold, boost and group, in arrival order.
    let mut grouped: Vec<RankedAnswer> = Vec::new();
    proof {
        assert(msv.take(0) =~= Seq::<MatchV>::empty());
        assert(grouped.deep_view() =~= Seq::<AnswerV>::empty());
    }
    let mut t: usize = 0;
    while t < n
        invariant
            n == matches@.len(),
            msv == matches.deep_view(),
            t <= n,
            grouped.deep_view() == group_matches(msv.take(t as int)),
        decreases n - t,
    {
        proof {
            assert(msv.take(t + 1).drop_last() =~= msv.take(t as int));
            assert(msv.take(t + 1).last() == msv[t as int]);
        }
        let ghost pre = group_matches(msv.take(t as int));
        let m = &matches[t];
        if m.score >= SCORE_THRESHOLD {
            let trusted = is_trusted_source(&m.description);
            let score64: u64 = if trusted {
                (m.score as u64) * BOOST_NUM / BOOST_DEN
            } else {
                m.score as u64
            };
            proof {
                assert(score64 == boosted(msv[t as int]));
            }
            let pair = ExamplePair {
                description: m.example_description.clone(),
                command_line: m.example_command.clone(),
            };
            proof {
                assert(pair.deep_view() == match_pair(msv[t as int]));
            }
            match find_command(&grouped, &m.command) {
                Some(j) => {
                    let mut entry = grouped.remove(j);
                    let ghost ev = entry.deep_view();
                    proof {
                        assert(ev == pre[j as int]);
                    }
                    entry.examples.push(pair);
                    proof {
                        assert(entry.examples.deep_view() =~= ev.examples.push(
                            match_pair(msv[t as int]),
                        ));
                    }
                    grouped.insert(j, entry);
                    proof {
                        assert(grouped.deep_view() =~= group_step(pre, msv[t as int]));
                    }
                },
                None => {
                    let mut exs: Vec<ExamplePair> = Vec::new();
                    exs.push(pair);
                    proof {
                        assert(exs.deep_view() =~= seq![match_pair(msv[t as int])]);
                    }
                    grouped.push(
                        RankedAnswer {
                            command: m.command.clone(),
                            description: m.description.clone(),
                            examples: exs,
                            score: score64,
                        },
                    );
                    proof {
                        assert(grouped.deep_view() =~= group_step(pre, msv[t as int]));
                    }
                },
            }
        }
        t = t + 1;
    }
    proof {
        assert(msv.take(n as int) =~= msv);
    }

    // Stable insertion sort, descending by score.
    let ghost gseq = grouped.deep_view();
    let glen = grouped.len();
    let mut rest = grouped;
    let mut sorted: Vec<RankedAnswer> = Vec::new();
    proof {
        assert(gseq.len() == glen as int);
        assert(gseq.skip(0) =~= gseq);
        assert(gseq.take(0) =~= Seq::<AnswerV>::empty());
        assert(sorted.deep_view() =~= Seq::<AnswerV>::empty());
    }
    let mut s: usize = 0;
    while rest.len() > 0
        invariant
            gseq.len() <= usize::MAX,
            s <= gseq.len(),
            rest.deep_view() == gseq.skip(s as int),
            sorted.deep_view() == sort_desc(gseq.take(s as int)),
        decreases rest@.len(),
    {
        proof {
            assert(rest.deep_view().len() == rest@.len());
            assert(s < gseq.len());
        }
        proof {
            assert(gseq.skip(s as int)[0] == gseq[s as int]);
            assert(gseq.skip(s as int).drop_first() =~= gseq.skip(s + 1));
        }
        let x = rest.remove(0);
        proof {
            assert(rest.deep_view() =~= gseq.skip(s as int).drop_first());
            assert(x.deep_view() == gseq[s as int]);
        }
        let pos = find_insert_pos(&sorted, x.score);
        let ghost pre_sorted = sorted.deep_view();
        sorted.insert(pos, x);
        proof {
            lemma_insert_desc_at(pre_sorted, x.deep_view(), pos as int);
            assert(sorted.deep_view() =~= pre_sorted.insert(pos as int, x.deep_view()));
            assert(gseq.take(s + 1).drop_last() =~= gseq.take(s as int));
            assert(gseq.take(s + 1).last() == gseq[s as int]);
        }
        s = s + 1;
    }
    proof {
        assert(gseq.skip(s as int).len() == 0);
        assert(gseq.take(s as int) =~= gseq);
    }

    // Keep at most three commands; the third keeps only its best example.
    let ghost sseq = sorted.deep_view();
    proof {
        lemma_group_examples_nonempty(msv);
        lemma_sort_examples_nonempty(gseq);
    }
    proof {
        assert(gseq == group_matches(msv));
        assert(sseq == sort_desc(gseq));
    }
    let limit = if sorted.len() < MAX_COMMANDS {
        sorted.len()
    } else {
        MAX_COMMANDS
    };
    let mut rest2 = sorted;
    let mut result: Vec<RankedAnswer> = Vec::new();
    proof {
        assert(sseq.skip(0) =~= sseq);
        assert(shape_results(sseq).take(0) =~= Seq::<AnswerV>::empty());
        assert(result.deep_view() =~= Seq::<AnswerV>::empty());
    }
    let mut k: usize = 0;
    while k < limit
        invariant
            limit == if sseq.len() <= MAX_COMMANDS as int { sseq.len() as int } else { MAX_COMMANDS as int },
            k <= limit,
            rest2.deep_view() == sseq.skip(k as int),
            result.deep_view() == shape_results(sseq).take(k as int),
            forall|i: int| 0 <= i < sseq.len() ==> #[trigger] sseq[i].examples.len() >= 1,
        decreases limit - k,
    {
        proof {
            assert(sseq.skip(k as int)[0] == sseq[k as int]);
            assert(sseq.skip(k as int).drop_first() =~= sseq.skip(k + 1));
        }
        proof {
            assert(rest2.deep_view().len() == rest2@.len());
            assert(k < sseq.len());
        }
        let mut x = rest2.remove(0);
        proof {
            assert(rest2.deep_view() =~= sseq.skip(k as int).drop_first());
            assert(x.deep_view() == sseq[k as int]);
        }
        if k >= 2 {
            let ghost xv = x.deep_view();
            proof {
                assert(xv.examples.len() >= 1);
                assert(x.examples.deep_view().len() == x.examples@.len());
            }
            let first_ex = x.examples.remove(0);
            let ghost fv = first_ex.deep_view();
            let mut one: Vec<ExamplePair> = Vec::new();
            one.push(first_ex);
            x.examples = one;
            proof {
                assert(fv == xv.examples[0]);
                assert(xv.examples.take(1) =~= seq![xv.examples[0]]);
                assert(x.examples.deep_view() =~= xv.examples.take(1));
                assert(x.deep_view() == shape_answer(sseq[k as int], k as int));
            }
        }
        proof {
            assert(x.deep_view() == shape_answer(sseq[k as int], k as int));
        }
        let ghost rv = result.deep_view();
        result.push(x);
        proof {
            assert(k < shape_results(sseq).len());
            assert(shape_results(sseq)[k as int] == shape_answer(sseq[k as int], k as int));
            assert(result.deep_view() =~= rv.push(shape_answer(sseq[k as int], k as int)));
            assert(result.deep_view() =~= shape_results(sseq).take(k + 1));
        }
        k = k + 1;
    }
    proof {
        assert(result.deep_view() =~= shape_results(sseq));
    }
    result
}

/// Law: every grouped answer carries at least one example.
pub proof fn lemma_group_examples_nonempty(ms: Seq<MatchV>)
    ensures
        forall|i: int|
            0 <= i < group_matches(ms).len() ==> #[trigger] group_matches(
                ms,
            )[i].examples.len() >= 1,
    decreases ms.len(),
{
    if ms.len() > 0 {
        lemma_group_examples_nonempty(ms.drop_last());
        lemma_find_cmd(group_matches(ms.drop_last()), ms.last().command);
    }
}

proof fn lemma_insert_desc_examples_nonempty(x: AnswerV, s: Seq<AnswerV>)
    requires
        x.examples.len() >= 1,
        forall|i: int| 0 <= i < s.len() ==> #[trigger] s[i].examples.len() >= 1,
    ensures
        forall|i: int|
            0 <= i < insert_desc(x, s).len() ==> #[trigger] insert_desc(
                x,
                s,
            )[i].examples.len() >= 1,
    decreases s.len(),
{
    if s.len() == 0 {
        assert(insert_desc(x, s) =~= seq![x]);
    } else if s[0].score >= x.score {
        assert(forall|i: int| 0 <= i < s.len() - 1 ==> s.drop_first()[i] == s[i + 1]);
        lemma_insert_desc_examples_nonempty(x, s.drop_first());
        let r = insert_desc(x, s);
        assert forall|i: int| 0 <= i < r.len() implies r[i].examples.len() >= 1 by {
            if i == 0 {
                assert(r[0] == s[0]);
            } else {
                assert(r[i] == insert_desc(x, s.drop_first())[i - 1]);
            }
        }
    } else {
        let r = insert_desc(x, s);
        assert forall|i: int| 0 <= i < r.len() implies r[i].examples.len() >= 1 by {
            if i == 0 {
                assert(r[0] == x);
            } else {
                assert(r[i] == s[i - 1]);
            }
        }
    }
}

/// Every later answer scores at most as much as every earlier one.
pub open spec fn scores_descending(s: Seq<AnswerV>) -> bool {
    forall|i: int, j: int| 0 <= i < j < s.len() ==> #[trigger] s[i].score >= #[trigger] s[j].score
}

/// Law: ranking is deterministic — the same stored matches and question
/// always yield the same ordered answers.
pub proof fn lemma_rank_deterministic(a: Seq<MatchV>, b: Seq<MatchV>)
    requires
        a == b,
    ensures
        rank_spec(a) == rank_spec(b),
{
}

/// Law: the trusted-source boost never lowers a score, so of two
/// otherwise-equal matches the trusted one ranks at or above the other.
pub proof fn lemma_boost_monotonic(score: u32)
    ensures
        boosted_score(score, true) >= boosted_score(score, false),
{
    let s = score as int;
    assert(s * 6 / 5 >= s) by (nonlinear_arith)
        requires
            s >= 0,
    ;
    assert(s * 6 / 5 <= s * 2) by (nonlinear_arith)
        requires
            s >= 0,
    ;
}

/// Law: of two otherwise-equal matches for different commands, the one
/// whose description names a trusted source ranks first, at a score at
/// least as high as the other's.
pub proof fn lemma_trusted_ranks_first(m1: MatchV, m2: MatchV)
    requires
        m1.score == m2.score,
        m1.score >= SCORE_THRESHOLD,
        m1.command != m2.command,
        is_trusted_desc(m1.description),
        !is_trusted_desc(m2.description),
    ensures
        rank_spec(seq![m1, m2]).len() == 2,
        rank_spec(seq![m1, m2])[0].command == m1.command,
        rank_spec(seq![m1, m2])[0].score >= rank_spec(seq![m1, m2])[1].score,
{
    let ms = seq![m1, m2];
    assert(ms.drop_last() =~= seq![m1]);
    assert(ms.last() == m2);
    assert(seq![m1].drop_last() =~= Seq::<MatchV>::empty());
    assert(seq![m1].last() == m1);

    let a1 = AnswerV {
        command: m1.command,
        description: m1.description,
        examples: seq![match_pair(m1)],
        score: boosted(m1),
    };
    let a2 = AnswerV {
        command: m2.command,
        description: m2.description,
        examples: seq![match_pair(m2)],
        score: boosted(m2),
    };
    assert(group_matches(Seq::<MatchV>::empty()) == Seq::<AnswerV>::empty());
    assert(find_cmd(Seq::<AnswerV>::empty(), m1.command) == -1);
    assert(find_cmd(Seq::<AnswerV>::empty(), m2.command) == -1);
    let g1 = group_matches(seq![m1]);
    assert(g1 == group_step(Seq::<AnswerV>::empty(), m1));
    assert(g1 == Seq::<AnswerV>::empty().push(a1));
    assert(g1 =~= seq![a1]);
    assert(seq![a1][0] == a1);
    assert(seq![a1].drop_first() =~= Seq::<AnswerV>::empty());
    assert(find_cmd(seq![a1], m2.command) == -1);
    let g2 = group_matches(ms);
    assert(g2 == seq![a1].push(a2));
    assert(g2 =~= seq![a1, a2]);

    lemma_boost_monotonic(m1.score);
    assert(boosted(m1) >= boosted(m2));

    assert(g2.drop_last() =~= seq![a1]);
    assert(seq![a1].drop_last() =~= Seq::<AnswerV>::empty());
    assert(sort_desc(Seq::<AnswerV>::empty()) == Seq::<AnswerV>::empty());
    assert(insert_desc(a1, Seq::<AnswerV>::empty()) == seq![a1]);
    assert(sort_desc(seq![a1]) == seq![a1]);
    assert(sort_desc(g2) == insert_desc(a2, seq![a1]));
    assert(insert_desc(a2, Seq::<AnswerV>::empty()) == seq![a2]);
    assert(insert_desc(a2, seq![a1]) == seq![a1] + insert_desc(a2, seq![a1].drop_first()));
    assert(sort_desc(g2) =~= seq![a1, a2]);

    assert(rank_spec(ms) =~= seq![a1, a2]);
}

proof fn lemma_insert_desc_elems(x: AnswerV, s: Seq<AnswerV>)
    ensures
        insert_desc(x, s).len() == s.len() + 1,
        forall|k: int|
            0 <= k < insert_desc(x, s).len() ==> (#[trigger] insert_desc(x, s)[k] == x
                || exists|i: int| 0 <= i < s.len() && insert_desc(x, s)[k] == s[i]),
    decreases s.len(),
{
    let r = insert_desc(x, s);
    if s.len() == 0 {
        assert(r[0] == x);
    } else if s[0].score >= x.score {
        lemma_insert_desc_elems(x, s.drop_first());
        assert forall|k: int|
            0 <= k < r.len() implies (r[k] == x || exists|i: int|
            0 <= i < s.len() && r[k] == s[i]) by {
            if k == 0 {
                assert(r[0] == s[0]);
            } else {
                assert(r[k] == insert_desc(x, s.drop_first())[k - 1]);
                if insert_desc(x, s.drop_first())[k - 1] != x {
                    let i = choose|i: int|
                        0 <= i < s.drop_first().len() && insert_desc(x, s.drop_first())[k - 1]
                            == s.drop_first()[i];
                    assert(s.drop_first()[i] == s[i + 1]);
                }
            }
        }
    } else {
        assert forall|k: int|
            0 <= k < r.len() implies (r[k] == x || exists|i: int|
            0 <= i < s.len() && r[k] == s[i]) by {
            if k > 0 {
                assert(r[k] == s[k - 1]);
            }
        }
    }
}

proof fn lemma_insert_desc_sorted(x: AnswerV, s: Seq<AnswerV>)
    requires
        scores_descending(s),
    ensures
        scores_descending(insert_desc(x, s)),
    decreases s.len(),
{
    let r = insert_desc(x, s);
    if s.len() == 0 {
    } else if s[0].score >= x.score {
        assert(forall|i: int| 0 <= i < s.len() - 1 ==> s.drop_first()[i] == s[i + 1]);
        lemma_insert_desc_sorted(x, s.drop_first());
        lemma_insert_desc_elems(x, s.drop_first());
        let rr = insert_desc(x, s.drop_first());
        assert forall|i: int, j: int|
            0 <= i < j < r.len() implies r[i].score >= r[j].score by {
            if i == 0 {
                assert(r[0] == s[0]);
                assert(r[j] == rr[j - 1]);
                if rr[j - 1] == x {
                } else {
                    let w = choose|w: int|
                        0 <= w < s.drop_first().len() && rr[j - 1] == s.drop_first()[w];
                    assert(s.drop_first()[w] == s[w + 1]);
                }
            } else {
                assert(r[i] == rr[i - 1]);
                assert(r[j] == rr[j - 1]);
            }
        }
    } else {
        assert forall|i: int, j: int|
            0 <= i < j < r.len() implies r[i].score >= r[j].score by {
            if i == 0 {
                assert(r[0] == x);
                assert(r[j] == s[j - 1]);
                if j > 1 {
                    assert(s[0].score >= s[j - 1].score);
                }
            } else {
                assert(r[i] == s[i - 1]);
                assert(r[j] == s[j - 1]);
            }
        }
    }
}

proof fn lemma_sort_desc_sorted(s: Seq<AnswerV>)
    ensures
        scores_descending(sort_desc(s)),
    decreases s.len(),
{
    if s.len() > 0 {
        lemma_sort_desc_sorted(s.drop_last());
        lemma_insert_desc_sorted(s.last(), sort_desc(s.drop_last()));
    }
}

/// Law: the returned answers are ordered by score, best first.
pub proof fn lemma_rank_sorted(ms: Seq<MatchV>)
    ensures
        scores_descending(rank_spec(ms)),
{
    lemma_sort_desc_sorted(group_matches(ms));
    let srt = sort_desc(group_matches(ms));
    let r = rank_spec(ms);
    assert forall|i: int, j: int| 0 <= i < j < r.len() implies r[i].score >= r[j].score by {
        assert(r[i].score == srt[i].score);
        assert(r[j].score == srt[j].score);
    }
}

/// Law: at most three commands come back; the first two keep their full
/// collected example lists; a third keeps exactly its single best example.
pub proof fn lemma_rank_truncation(ms: Seq<MatchV>)
    ensures
        rank_spec(ms).len() <= MAX_COMMANDS,
        forall|i: int|
            0 <= i < rank_spec(ms).len() && i < 2 ==> #[trigger] rank_spec(ms)[i].examples
                == sort_desc(group_matches(ms))[i].examples,
        rank_spec(ms).len() >= 3 ==> rank_spec(ms)[2].examples.len() == 1 && rank_spec(
            ms,
        )[2].examples[0] == sort_desc(group_matches(ms))[2].examples[0],
{
    lemma_group_examples_nonempty(ms);
    lemma_sort_examples_nonempty(group_matches(ms));
}

proof fn lemma_group_all_below(ms: Seq<MatchV>)
    requires
        forall|i: int| 0 <= i < ms.len() ==> #[trigger] ms[i].score < SCORE_THRESHOLD,
    ensures
        group_matches(ms) == Seq::<AnswerV>::empty(),
    decreases ms.len(),
{
    if ms.len() > 0 {
        assert(forall|i: int| 0 <= i < ms.len() - 1 ==> ms.drop_last()[i] == ms[i]);
        lemma_group_all_below(ms.drop_last());
    }
}

/// Law: a question whose matches all fall below the relevance bar yields
/// an empty answer list, not an error and not a partial match.
pub proof fn lemma_rank_empty_below_threshold(ms: Seq<MatchV>)
    requires
        forall|i: int| 0 <= i < ms.len() ==> #[trigger] ms[i].score < SCORE_THRESHOLD,
    ensures
        rank_spec(ms) == Seq::<AnswerV>::empty(),
{
    lemma_group_all_below(ms);
    assert(rank_spec(ms) =~= Seq::<AnswerV>::empty());
}

/// Law: sorting keeps every answer's examples non-empty.
pub proof fn lemma_sort_examples_nonempty(s: Seq<AnswerV>)
    requires
        forall|i: int| 0 <= i < s.len() ==> #[trigger] s[i].examples.len() >= 1,
    ensures
        forall|i: int|
            0 <= i < sort_desc(s).len() ==> #[trigger] sort_desc(s)[i].examples.len() >= 1,
    decreases s.len(),
{
    if s.len() > 0 {
        lemma_sort_examples_nonempty(s.drop_last());
        lemma_insert_desc_examples_nonempty(s.last(), sort_desc(s.drop_last()));
    }
}

} // verus!
