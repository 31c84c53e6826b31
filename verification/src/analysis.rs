//! The Poisson-based prediction engine's exact core.
//!
//! All averages and strength ratios are kept as exact rationals over the
//! stored integer scores; the probability-mass grid is folded over integer
//! masses with a common implicit scale, so that the renormalised outcome
//! probabilities share one denominator and provably sum to one.

use vstd::prelude::*;
use crate::db::{Store, StoreV, FootballStatsV};
use crate::errors::AnalysisError;
use crate::text::{seq_le, str_le, lemma_seq_le_total, lemma_seq_le_trans};

verus! {

/// An exact nonnegative rational.
pub struct Ratio {
    pub num: u128,
    pub den: u128,
}

#[verifier::ext_equal]
pub ghost struct RatioV {
    pub num: int,
    pub den: int,
}

impl View for Ratio {
    type V = RatioV;

    open spec fn view(&self) -> RatioV {
        RatioV { num: self.num as int, den: self.den as int }
    }
}

// ---------------------------------------------------------------------------
// League averages
// ---------------------------------------------------------------------------

/// Total goals scored by home sides over the given statistics rows.
pub open spec fn sum_home_scores(rows: Seq<FootballStatsV>) -> int
    decreases rows.len(),
{
    if rows.len() == 0 {
        0int
    } else {
        sum_home_scores(rows.drop_last()) + rows.last().home_score
    }
}

/// Total goals scored by away sides over the given statistics rows.
pub open spec fn sum_away_scores(rows: Seq<FootballStatsV>) -> int
    decreases rows.len(),
{
    if rows.len() == 0 {
        0int
    } else {
        sum_away_scores(rows.drop_last()) + rows.last().away_score
    }
}

/// League-wide average goals per match for home sides; the fixed prior of
/// 1.5 when no finished match is stored.
pub open spec fn league_home_avg(s: StoreV) -> RatioV {
    if s.football_stats.len() == 0 {
        RatioV { num: 15, den: 10 }
    } else {
        RatioV { num: sum_home_scores(s.football_stats), den: s.football_stats.len() as int }
    }
}

/// League-wide average goals per match for away sides; prior 1.2.
pub open spec fn league_away_avg(s: StoreV) -> RatioV {
    if s.football_stats.len() == 0 {
        RatioV { num: 12, den: 10 }
    } else {
        RatioV { num: sum_away_scores(s.football_stats), den: s.football_stats.len() as int }
    }
}

/// Every stored score is small enough for exact 128-bit rational
/// arithmetic over the projection formulas.
pub open spec fn scores_bounded(s: StoreV) -> bool {
    forall|k: int|
        0 <= k < s.football_stats.len() ==> #[trigger] s.football_stats[k].home_score <= u32::MAX
            && s.football_stats[k].away_score <= u32::MAX
}

/// Computes the two league averages over all stored finished matches.
pub fn get_league_averages(store: &Store) -> (r: (Ratio, Ratio))
    requires
        store.football_stats.len() <= u32::MAX as usize,
        scores_bounded(store@),
    ensures
        r.0@ == league_home_avg(store@),
        r.1@ == league_away_avg(store@),
        0 < r.0@.den <= 0x1_0000_0000,
        0 < r.1@.den <= 0x1_0000_0000,
        0 <= r.0@.num <= 0x1_0000_0000_0000_0000,
        0 <= r.1@.num <= 0x1_0000_0000_0000_0000,
{
    let n = store.football_stats.len();
    if n == 0 {
        return (Ratio { num: 15, den: 10 }, Ratio { num: 12, den: 10 });
    }
    let mut home_sum: u128 = 0;
    let mut away_sum: u128 = 0;
    let mut k: usize = 0;
    while k < n
        invariant
            n == store@.football_stats.len(),
            n <= u32::MAX,
            k <= n,
            scores_bounded(store@),
            home_sum == sum_home_scores(store@.football_stats.take(k as int)),
            away_sum == sum_away_scores(store@.football_stats.take(k as int)),
            home_sum <= (k as int) * (u32::MAX as int),
            away_sum <= (k as int) * (u32::MAX as int),
        decreases n - k,
    {
        proof {
            assert(store@.football_stats.take(k + 1 as int).drop_last() =~= store@.football_stats
                .take(k as int));
            assert(store@.football_stats.take(k + 1 as int).last() == store@.football_stats[k as int]);
            assert(store@.football_stats[k as int].home_score <= u32::MAX);
            assert(store@.football_stats[k as int].away_score <= u32::MAX);
        }
        home_sum = home_sum + store.football_stats[k].home_score as u128;
        away_sum = away_sum + store.football_stats[k].away_score as u128;
        k = k + 1;
    }
    proof {
        assert(store@.football_stats.take(n as int) =~= store@.football_stats);
    }
    (Ratio { num: home_sum, den: n as u128 }, Ratio { num: away_sum, den: n as u128 })
}

// ---------------------------------------------------------------------------
// Recent team form
// ---------------------------------------------------------------------------

/// Statistics row `k` is a qualifying finished match of team `t`.
pub open spec fn qualifies(s: StoreV, t: int, k: int) -> bool {
    &&& 0 <= k < s.football_stats.len()
    &&& 0 <= s.football_stats[k].event < s.events.len()
    &&& (s.events[s.football_stats[k].event].home_team == t || s.events[s.football_stats[k].event].away_team
        == t)
}

/// How many of the first `n` statistics rows qualify for team `t`.
pub open spec fn qual_count_upto(s: StoreV, t: int, n: int) -> int
    decreases n,
{
    if n <= 0 {
        0int
    } else {
        qual_count_upto(s, t, n - 1) + if qualifies(s, t, n - 1) {
            1int
        } else {
            0int
        }
    }
}

/// How many stored finished matches involve team `t`.
pub open spec fn qual_count(s: StoreV, t: int) -> int {
    qual_count_upto(s, t, s.football_stats.len() as int)
}

/// Goals team `t` scored in the match of statistics row `k`.
pub open spec fn scored_of(s: StoreV, t: int, k: int) -> u64 {
    if s.events[s.football_stats[k].event].home_team == t {
        s.football_stats[k].home_score
    } else {
        s.football_stats[k].away_score
    }
}

/// Goals team `t` conceded in the match of statistics row `k`.
pub open spec fn conceded_of(s: StoreV, t: int, k: int) -> u64 {
    if s.events[s.football_stats[k].event].home_team == t {
        s.football_stats[k].away_score
    } else {
        s.football_stats[k].home_score
    }
}

/// The date of the match of statistics row `k`.
pub open spec fn stats_date(s: StoreV, k: int) -> Seq<char> {
    s.events[s.football_stats[k].event].date
}

/// Goals scored over a selection of statistics rows.
pub open spec fn sum_scored(s: StoreV, t: int, sel: Seq<usize>) -> int
    decreases sel.len(),
{
    if sel.len() == 0 {
        0int
    } else {
        sum_scored(s, t, sel.drop_last()) + scored_of(s, t, sel.last() as int)
    }
}

/// Goals conceded over a selection of statistics rows.
pub open spec fn sum_conceded(s: StoreV, t: int, sel: Seq<usize>) -> int
    decreases sel.len(),
{
    if sel.len() == 0 {
        0int
    } else {
        sum_conceded(s, t, sel.drop_last()) + conceded_of(s, t, sel.last() as int)
    }
}

pub open spec fn spec_min(a: int, b: int) -> int {
    if a <= b {
        a
    } else {
        b
    }
}

/// `sel` is a valid "most recent matches" selection for team `t`: distinct
/// qualifying rows, as many as available up to `limit`, and every qualifying
/// row left out is no newer than any selected one.
pub open spec fn recent_selection(s: StoreV, t: int, limit: int, sel: Seq<usize>) -> bool {
    &&& sel.no_duplicates()
    &&& forall|x: int| 0 <= x < sel.len() ==> qualifies(s, t, #[trigger] sel[x] as int)
    &&& sel.len() == spec_min(limit, qual_count(s, t))
    &&& forall|x: int, k: usize|
        #![trigger sel[x], qualifies(s, t, k as int)]
        0 <= x < sel.len() && qualifies(s, t, k as int) && !sel.contains(k) ==> seq_le(
            stats_date(s, k as int),
            stats_date(s, sel[x] as int),
        )
}

/// The pair of averages is the team's recent form: goals scored and conceded
/// per match, averaged over some valid recent selection.
pub open spec fn recent_form(
    s: StoreV,
    t: int,
    limit: int,
    scored: RatioV,
    conceded: RatioV,
) -> bool {
    exists|sel: Seq<usize>|
        recent_selection(s, t, limit, sel) && scored == (RatioV {
            num: sum_scored(s, t, sel),
            den: sel.len() as int,
        }) && conceded == (RatioV { num: sum_conceded(s, t, sel), den: sel.len() as int })
}

impl Store {
    /// The date of the match of statistics row `k`.
    fn stats_date_at(&self, k: usize) -> (r: &str)
        requires
            k < self@.football_stats.len(),
            stats_event_in_range(self@, k as int),
        ensures
            r@ == stats_date(self@, k as int),
    {
        self.events[self.football_stats[k].event].date.as_str()
    }
}

/// The referential-integrity fact the date lookup relies on.
pub open spec fn stats_event_in_range(s: StoreV, k: int) -> bool {
    0 <= s.football_stats[k].event < s.events.len()
}

/// Averages of goals scored and conceded by team `team` over its most
/// recent `limit` stored finished matches; fails exactly when the team has
/// no qualifying finished match at all — it is never defaulted silently.
pub fn get_team_recent_stats(store: &Store, team: usize, limit: usize) -> (r: Result<
    (Ratio, Ratio),
    AnalysisError,
>)
    requires
        crate::db::wf_v(store@),
        scores_bounded(store@),
        1 <= limit <= u32::MAX as usize,
    ensures
        r is Err <==> qual_count(store@, team as int) == 0,
        r matches Err(e) ==> e == AnalysisError::InsufficientHistory,
        r matches Ok(form) ==> recent_form(store@, team as int, limit as int, form.0@, form.1@)
            && 0 < form.0@.den <= limit && 0 < form.1@.den <= limit && 0 <= form.0@.num <= (
        limit as int) * (u32::MAX as int) && 0 <= form.1@.num <= (limit as int) * (
        u32::MAX as int),
{
    let ghost s = store@;
    let ghost t = team as int;
    let n = store.football_stats.len();

    // Collect the qualifying statistics rows, in table order.
    let mut remaining: Vec<usize> = Vec::new();
    let mut k: usize = 0;
    while k < n
        invariant
            crate::db::wf_v(s),
            s == store@,
            t == team as int,
            n == s.football_stats.len(),
            k <= n,
            remaining@.len() == qual_count_upto(s, t, k as int),
            forall|x: int|
                0 <= x < remaining@.len() ==> qualifies(s, t, #[trigger] remaining@[x] as int),
            forall|x: int, y: int|
                0 <= x < y < remaining@.len() ==> remaining@[x] < remaining@[y],
            forall|j: usize| j < k && qualifies(s, t, j as int) ==> remaining@.contains(j),
            forall|x: int| 0 <= x < remaining@.len() ==> remaining@[x] < k,
        decreases n - k,
    {
        let e = store.football_stats[k].event;
        proof {
            assert(e as int == s.football_stats[k as int].event);
            assert(0 <= s.football_stats[k as int].event < s.events.len());
        }
        let ghost old_rem = remaining@;
        if store.events[e].home_team == team || store.events[e].away_team == team {
            remaining.push(k);
            proof {
                assert(remaining@ =~= old_rem.push(k));
                assert forall|j: usize|
                    j < k + 1 && qualifies(s, t, j as int) implies remaining@.contains(j) by {
                    if j < k {
                        let x = choose|x: int| 0 <= x < old_rem.len() && old_rem[x] == j;
                        assert(remaining@[x] == j);
                    } else {
                        assert(remaining@[remaining@.len() - 1] == j);
                    }
                }
            }
        }
        k = k + 1;
    }
    if remaining.len() == 0 {
        assert(qual_count(s, t) == 0);
        return Err(AnalysisError::InsufficientHistory);
    }
    let ghost total = remaining@.len() as int;
    assert(total == qual_count(s, t));

    // Repeatedly pull the newest remaining match until the window is full.
    let mut picked: Vec<usize> = Vec::new();
    while picked.len() < limit && remaining.len() > 0
        invariant
            crate::db::wf_v(s),
            s == store@,
            t == team as int,
            total == qual_count(s, t),
            picked@.len() + remaining@.len() == total,
            picked@.len() <= limit,
            picked@.no_duplicates(),
            remaining@.no_duplicates(),
            forall|x: int| 0 <= x < picked@.len() ==> qualifies(s, t, #[trigger] picked@[x] as int),
            forall|x: int|
                0 <= x < remaining@.len() ==> qualifies(s, t, #[trigger] remaining@[x] as int),
            forall|j: usize| !(picked@.contains(j) && remaining@.contains(j)),
            forall|j: usize| qualifies(s, t, j as int) ==> picked@.contains(j) || remaining@.contains(j),
            forall|x: int, j: usize|
                #![trigger picked@[x], remaining@.contains(j)]
                0 <= x < picked@.len() && remaining@.contains(j) ==> seq_le(
                    stats_date(s, j as int),
                    stats_date(s, picked@[x] as int),
                ),
        decreases remaining@.len(),
    {
        // Index of the newest remaining match.
        proof {
            lemma_seq_le_total(
                stats_date(s, remaining@[0] as int),
                stats_date(s, remaining@[0] as int),
            );
        }
        let mut m: usize = 0;
        let mut x: usize = 1;
        while x < remaining.len()
            invariant
                crate::db::wf_v(s),
                s == store@,
                t == team as int,
                remaining@.len() > 0,
                forall|y: int|
                    0 <= y < remaining@.len() ==> qualifies(s, t, #[trigger] remaining@[y] as int),
                m < x,
                x <= remaining@.len(),
                forall|y: int|
                    0 <= y < x ==> seq_le(
                        stats_date(s, #[trigger] remaining@[y] as int),
                        stats_date(s, remaining@[m as int] as int),
                    ),
            decreases remaining@.len() - x,
        {
            if str_le(store.stats_date_at(remaining[m]), store.stats_date_at(remaining[x])) {
                proof {
                    assert forall|y: int|
                        0 <= y < x + 1 implies seq_le(
                        stats_date(s, #[trigger] remaining@[y] as int),
                        stats_date(s, remaining@[x as int] as int),
                    ) by {
                        if y < x {
                            lemma_seq_le_trans(
                                stats_date(s, remaining@[y] as int),
                                stats_date(s, remaining@[m as int] as int),
                                stats_date(s, remaining@[x as int] as int),
                            );
                        } else {
                            lemma_seq_le_total(
                                stats_date(s, remaining@[x as int] as int),
                                stats_date(s, remaining@[x as int] as int),
                            );
                        }
                    }
                }
                m = x;
            } else {
                proof {
                    lemma_seq_le_total(
                        stats_date(s, remaining@[m as int] as int),
                        stats_date(s, remaining@[x as int] as int),
                    );
                }
            }
            x = x + 1;
        }
        let v = remaining[m];
        let ghost old_picked = picked@;
        let ghost old_remaining = remaining@;
        picked.push(v);
        remaining.remove(m);
        proof {
            assert(remaining@ =~= old_remaining.subrange(0, m as int) + old_remaining.subrange(
                m as int + 1,
                old_remaining.len() as int,
            ));
            assert(picked@ =~= old_picked.push(v));
            // The element moved out is gone from `remaining`, nothing else is.
            assert forall|j: usize| remaining@.contains(j) implies old_remaining.contains(j) && j
                != v by {
                let y = choose|y: int| 0 <= y < remaining@.len() && remaining@[y] == j;
                if y < m {
                    assert(old_remaining[y] == j);
                    assert(old_remaining[y] != old_remaining[m as int]);
                } else {
                    assert(old_remaining[y + 1] == j);
                    assert(old_remaining[y + 1] != old_remaining[m as int]);
                }
            }
            assert forall|j: usize| old_remaining.contains(j) && j != v implies remaining@.contains(
                j,
            ) by {
                let y = choose|y: int| 0 <= y < old_remaining.len() && old_remaining[y] == j;
                if y < m {
                    assert(remaining@[y] == j);
                } else {
                    assert(y > m);
                    assert(remaining@[y - 1] == j);
                }
            }
            assert(picked@.no_duplicates()) by {
                assert(!old_picked.contains(v));
                assert(forall|a: int, b: int|
                    0 <= a < b < picked@.len() ==> picked@[a] != picked@[b]);
            }
            assert(remaining@.no_duplicates()) by {
                assert(forall|a: int, b: int|
                    0 <= a < b < remaining@.len() ==> remaining@[a] != remaining@[b]);
            }
            assert(old_remaining.contains(v)) by {
                assert(old_remaining[m as int] == v);
            }
            // Every qualifying row is still accounted for on one side.
            assert forall|j: usize|
                qualifies(s, t, j as int) implies picked@.contains(j) || remaining@.contains(
                j,
            ) by {
                if old_picked.contains(j) {
                    let y = choose|y: int| 0 <= y < old_picked.len() && old_picked[y] == j;
                    assert(picked@[y] == j);
                } else {
                    assert(old_remaining.contains(j));
                    if j == v {
                        assert(picked@[old_picked.len() as int] == j);
                    }
                }
            }
            // Every remaining match is no newer than anything picked so far.
            assert forall|xx: int, j: usize|
                #![trigger picked@[xx], remaining@.contains(j)]
                0 <= xx < picked@.len() && remaining@.contains(j) implies seq_le(
                stats_date(s, j as int),
                stats_date(s, picked@[xx] as int),
            ) by {
                assert(old_remaining.contains(j));
                if xx < old_picked.len() {
                    assert(picked@[xx] == old_picked[xx]);
                } else {
                    assert(picked@[xx] == v);
                    let y = choose|y: int| 0 <= y < old_remaining.len() && old_remaining[y] == j;
                    assert(seq_le(
                        stats_date(s, old_remaining[y] as int),
                        stats_date(s, old_remaining[m as int] as int),
                    ));
                }
            }
        }
    }
    let count = picked.len();
    proof {
        if total >= limit {
            assert(count == limit);
        } else {
            assert(remaining@.len() == 0);
            assert(count == total);
        }
        assert(count as int == spec_min(limit as int, qual_count(s, t)));
    }

    // Fold the window into exact averages.
    let mut scored_sum: u128 = 0;
    let mut conceded_sum: u128 = 0;
    let mut i: usize = 0;
    while i < count
        invariant
            crate::db::wf_v(s),
            s == store@,
            t == team as int,
            count == picked@.len(),
            count <= u32::MAX,
            i <= count,
            forall|x: int| 0 <= x < picked@.len() ==> qualifies(s, t, #[trigger] picked@[x] as int),
            scores_bounded(s),
            scored_sum == sum_scored(s, t, picked@.take(i as int)),
            conceded_sum == sum_conceded(s, t, picked@.take(i as int)),
            scored_sum <= (i as int) * (u32::MAX as int),
            conceded_sum <= (i as int) * (u32::MAX as int),
        decreases count - i,
    {
        proof {
            assert(picked@.take(i + 1 as int).drop_last() =~= picked@.take(i as int));
            assert(picked@.take(i + 1 as int).last() == picked@[i as int]);
            assert(qualifies(s, t, picked@[i as int] as int));
            assert(s.football_stats[picked@[i as int] as int].home_score <= u32::MAX);
            assert(s.football_stats[picked@[i as int] as int].away_score <= u32::MAX);
        }
        let kk = picked[i];
        let e = store.football_stats[kk].event;
        if store.events[e].home_team == team {
            scored_sum = scored_sum + store.football_stats[kk].home_score as u128;
            conceded_sum = conceded_sum + store.football_stats[kk].away_score as u128;
        } else {
            scored_sum = scored_sum + store.football_stats[kk].away_score as u128;
            conceded_sum = conceded_sum + store.football_stats[kk].home_score as u128;
        }
        i = i + 1;
    }
    proof {
        assert(picked@.take(count as int) =~= picked@);
    }
    let scored = Ratio { num: scored_sum, den: count as u128 };
    let conceded = Ratio { num: conceded_sum, den: count as u128 };
    proof {
        assert(recent_selection(s, t, limit as int, picked@));
        assert(recent_form(s, t, limit as int, scored@, conceded@));
    }
    Ok((scored, conceded))
}

// ---------------------------------------------------------------------------
// Projected scoring rates
// ---------------------------------------------------------------------------

/// How many recent finished matches enter a team's form window.
pub const FORM_WINDOW: usize = 20;

/// The projected scoring rate of one side: its attack strength times the
/// opponent's defence strength times the league average — which cancels to
/// `scored_avg * opp_conceded_avg / league_avg`. A zero league average makes
/// both strengths default to the neutral 1, leaving the (zero) league
/// average itself.
pub open spec fn spec_projected_rate(scored: RatioV, opp_conceded: RatioV, league: RatioV) -> RatioV {
    if league.num > 0 {
        RatioV {
            num: scored.num * opp_conceded.num * league.den,
            den: scored.den * opp_conceded.den * league.num,
        }
    } else {
        RatioV { num: 0, den: 1 }
    }
}

/// The two projected Poisson rates of a prospective match.
pub struct RateProjection {
    pub xg_home: Ratio,
    pub xg_away: Ratio,
}

/// Projects both sides' expected goals from league averages and each team's
/// recent form. Fails with `InsufficientHistory` exactly when either team
/// has no qualifying finished match — it is never defaulted silently.
pub fn analyze_match(store: &Store, home_team: usize, away_team: usize) -> (r: Result<
    RateProjection,
    AnalysisError,
>)
    requires
        crate::db::wf_v(store@),
        store.football_stats.len() <= u32::MAX as usize,
        scores_bounded(store@),
    ensures
        r is Err <==> (qual_count(store@, home_team as int) == 0 || qual_count(
            store@,
            away_team as int,
        ) == 0),
        r matches Err(e) ==> e == AnalysisError::InsufficientHistory,
        r matches Ok(p) ==> exists|hs: RatioV, hc: RatioV, ascr: RatioV, acon: RatioV|
            {
                &&& recent_form(store@, home_team as int, FORM_WINDOW as int, hs, hc)
                &&& recent_form(store@, away_team as int, FORM_WINDOW as int, ascr, acon)
                &&& p.xg_home@ == spec_projected_rate(hs, acon, league_home_avg(store@))
                &&& p.xg_away@ == spec_projected_rate(ascr, hc, league_away_avg(store@))
                &&& p.xg_home@.den > 0
                &&& p.xg_away@.den > 0
            },
{
    let (league_home, league_away) = get_league_averages(store);
    let home_form = match get_team_recent_stats(store, home_team, FORM_WINDOW) {
        Ok(f) => f,
        Err(e) => {
            return Err(e);
        },
    };
    let away_form = match get_team_recent_stats(store, away_team, FORM_WINDOW) {
        Ok(f) => f,
        Err(e) => {
            return Err(e);
        },
    };
    let (home_scored, home_conceded) = home_form;
    let (away_scored, away_conceded) = away_form;
    let xg_home = if league_home.num > 0 {
        proof {
            // Form numerators stay below 2^37, denominators at 20; with the
            // league bounds every product fits comfortably into 128 bits.
            assert(0 <= home_scored.num * away_conceded.num <= 0x2000_0000_0000_0000_0000
                && home_scored.num * away_conceded.num * league_home.den
                <= 0x2000_0000_0000_0000_0000 * 0x1_0000_0000) by (nonlinear_arith)
                requires
                    0 <= home_scored.num <= 20 * (u32::MAX as int),
                    0 <= away_conceded.num <= 20 * (u32::MAX as int),
                    0 < league_home.den <= 0x1_0000_0000,
            ;
            assert(0 < home_scored.den * away_conceded.den <= 400 && 0 < home_scored.den
                * away_conceded.den * league_home.num <= 400 * 0x1_0000_0000_0000_0000)
                by (nonlinear_arith)
                requires
                    0 < home_scored.den <= 20,
                    0 < away_conceded.den <= 20,
                    0 < league_home.num <= 0x1_0000_0000_0000_0000,
            ;
        }
        Ratio {
            num: home_scored.num * away_conceded.num * league_home.den,
            den: home_scored.den * away_conceded.den * league_home.num,
        }
    } else {
        Ratio { num: 0, den: 1 }
    };
    let xg_away = if league_away.num > 0 {
        proof {
            assert(0 <= away_scored.num * home_conceded.num <= 0x2000_0000_0000_0000_0000
                && away_scored.num * home_conceded.num * league_away.den
                <= 0x2000_0000_0000_0000_0000 * 0x1_0000_0000) by (nonlinear_arith)
                requires
                    0 <= away_scored.num <= 20 * (u32::MAX as int),
                    0 <= home_conceded.num <= 20 * (u32::MAX as int),
                    0 < league_away.den <= 0x1_0000_0000,
            ;
            assert(0 < away_scored.den * home_conceded.den <= 400 && 0 < away_scored.den
                * home_conceded.den * league_away.num <= 400 * 0x1_0000_0000_0000_0000)
                by (nonlinear_arith)
                requires
                    0 < away_scored.den <= 20,
                    0 < home_conceded.den <= 20,
                    0 < league_away.num <= 0x1_0000_0000_0000_0000,
            ;
        }
        Ratio {
            num: away_scored.num * home_conceded.num * league_away.den,
            den: away_scored.den * home_conceded.den * league_away.num,
        }
    } else {
        Ratio { num: 0, den: 1 }
    };
    proof {
        assert(recent_form(
            store@,
            home_team as int,
            FORM_WINDOW as int,
            home_scored@,
            home_conceded@,
        ));
        assert(recent_form(
            store@,
            away_team as int,
            FORM_WINDOW as int,
            away_scored@,
            away_conceded@,
        ));
        assert(xg_home@ == spec_projected_rate(
            home_scored@,
            away_conceded@,
            league_home_avg(store@),
        ));
        assert(xg_away@ == spec_projected_rate(
            away_scored@,
            home_conceded@,
            league_away_avg(store@),
        ));
    }
    Ok(RateProjection { xg_home, xg_away })
}

// ---------------------------------------------------------------------------
// The score grid and its markets
// ---------------------------------------------------------------------------

/// Home goals of grid cell `i` (row-major 10 by 10).
pub open spec fn grid_h(i: int) -> int {
    i / 10
}

/// Away goals of grid cell `i`.
pub open spec fn grid_a(i: int) -> int {
    i % 10
}

/// Mass of the first `n` cells in which the home side wins.
pub open spec fn mass_win_upto(c: Seq<u64>, n: int) -> int
    decreases n,
{
    if n <= 0 {
        0int
    } else {
        mass_win_upto(c, n - 1) + if grid_h(n - 1) > grid_a(n - 1) {
            c[n - 1] as int
        } else {
            0int
        }
    }
}

/// Mass of the first `n` cells in which the sides draw.
pub open spec fn mass_draw_upto(c: Seq<u64>, n: int) -> int
    decreases n,
{
    if n <= 0 {
        0int
    } else {
        mass_draw_upto(c, n - 1) + if grid_h(n - 1) == grid_a(n - 1) {
            c[n - 1] as int
        } else {
            0int
        }
    }
}

/// Mass of the first `n` cells in which the home side loses.
pub open spec fn mass_lose_upto(c: Seq<u64>, n: int) -> int
    decreases n,
{
    if n <= 0 {
        0int
    } else {
        mass_lose_upto(c, n - 1) + if grid_h(n - 1) < grid_a(n - 1) {
            c[n - 1] as int
        } else {
            0int
        }
    }
}

/// Total mass of the first `n` cells.
pub open spec fn mass_total_upto(c: Seq<u64>, n: int) -> int
    decreases n,
{
    if n <= 0 {
        0int
    } else {
        mass_total_upto(c, n - 1) + c[n - 1] as int
    }
}

/// Mass of the first `n` cells with three or more total goals.
pub open spec fn mass_over_upto(c: Seq<u64>, n: int) -> int
    decreases n,
{
    if n <= 0 {
        0int
    } else {
        mass_over_upto(c, n - 1) + if grid_h(n - 1) + grid_a(n - 1) > 2 {
            c[n - 1] as int
        } else {
            0int
        }
    }
}

/// Mass of the first `n` cells in which both sides score.
pub open spec fn mass_btts_upto(c: Seq<u64>, n: int) -> int
    decreases n,
{
    if n <= 0 {
        0int
    } else {
        mass_btts_upto(c, n - 1) + if grid_h(n - 1) > 0 && grid_a(n - 1) > 0 {
            c[n - 1] as int
        } else {
            0int
        }
    }
}

/// Every grid cell falls into exactly one of the win, draw and lose buckets,
/// so after renormalisation by the shared total the three outcome
/// probabilities sum to exactly one.
pub proof fn lemma_grid_partition(c: Seq<u64>, n: int)
    ensures
        mass_win_upto(c, n) + mass_draw_upto(c, n) + mass_lose_upto(c, n) == mass_total_upto(c, n),
    decreases n,
{
    if n > 0 {
        lemma_grid_partition(c, n - 1);
    }
}

/// A match prediction: the projected rates, and the market masses over the
/// ten-by-ten score grid. The win, draw and lose masses are exact shares of
/// `total`, the shared renormalisation denominator; the over-2.5-goals and
/// both-teams-score masses are raw grid sums over the same scale.
pub struct MatchPrediction {
    pub xg_home: Ratio,
    pub xg_away: Ratio,
    pub win: u64,
    pub draw: u64,
    pub lose: u64,
    pub total: u64,
    pub over_2_5: u64,
    pub btts: u64,
}

/// Folds the hundred cell masses (cell `10*h + a` carrying the mass of the
/// scoreline `h:a`, all on one common scale) into the market buckets.
pub fn build_prediction(xg_home: Ratio, xg_away: Ratio, cells: &Vec<u64>) -> (p: MatchPrediction)
    requires
        cells@.len() == 100,
        forall|i: int| 0 <= i < 100 ==> #[trigger] cells@[i] <= 0x1_0000_0000_0000,
    ensures
        p.xg_home == xg_home,
        p.xg_away == xg_away,
        p.win == mass_win_upto(cells@, 100),
        p.draw == mass_draw_upto(cells@, 100),
        p.lose == mass_lose_upto(cells@, 100),
        p.total == mass_total_upto(cells@, 100),
        p.over_2_5 == mass_over_upto(cells@, 100),
        p.btts == mass_btts_upto(cells@, 100),
        p.win + p.draw + p.lose == p.total,
{
    let mut win: u64 = 0;
    let mut draw: u64 = 0;
    let mut lose: u64 = 0;
    let mut total: u64 = 0;
    let mut over: u64 = 0;
    let mut btts: u64 = 0;
    let mut i: usize = 0;
    while i < 100
        invariant
            cells@.len() == 100,
            forall|k: int| 0 <= k < 100 ==> #[trigger] cells@[k] <= 0x1_0000_0000_0000,
            i <= 100,
            win == mass_win_upto(cells@, i as int),
            draw == mass_draw_upto(cells@, i as int),
            lose == mass_lose_upto(cells@, i as int),
            total == mass_total_upto(cells@, i as int),
            over == mass_over_upto(cells@, i as int),
            btts == mass_btts_upto(cells@, i as int),
            win <= (i as int) * 0x1_0000_0000_0000,
            draw <= (i as int) * 0x1_0000_0000_0000,
            lose <= (i as int) * 0x1_0000_0000_0000,
            total <= (i as int) * 0x1_0000_0000_0000,
            over <= (i as int) * 0x1_0000_0000_0000,
            btts <= (i as int) * 0x1_0000_0000_0000,
        decreases 100 - i,
    {
        let h = i / 10;
        let a = i % 10;
        let mass = cells[i];
        if h > a {
            win = win + mass;
        } else if h == a {
            draw = draw + mass;
        } else {
            lose = lose + mass;
        }
        total = total + mass;
        if h + a > 2 {
            over = over + mass;
        }
        if h > 0 && a > 0 {
            btts = btts + mass;
        }
        i = i + 1;
    }
    proof {
        lemma_grid_partition(cells@, 100);
    }
    MatchPrediction { xg_home, xg_away, win, draw, lose, total, over_2_5: over, btts }
}

} // verus!
