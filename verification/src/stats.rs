//! Per-team statistics of an event: ranking data, completed matches and
//! the points scored in them.
//!
//! The statistics carry point totals; the averages shown to users are those
//! totals divided by `matches_played` (zero when no match was played).

use vstd::prelude::*;
use crate::models::{Match, Ranking, Team, WLTRecord, Alliance, rating_of, rating_for};
use crate::search::{first_index, lemma_first_index_absent, lemma_first_index_found};
use crate::text::{int_text, push_int, str_eq, text_of};

verus! {

/// Statistics of one team. `rp_average`, `opr`, `dpr` and `ccwm` hold bit
/// patterns of 32-bit floats; the point totals are over the team's
/// completed matches.
#[derive(Debug, Clone)]
pub struct TeamStats {
    pub team_key: String,
    pub team_number: i32,
    pub team_name: String,
    pub rank: i32,
    pub total_teams: i32,
    pub record: String,
    pub matches_played: usize,
    pub rp_average: u32,
    pub auto_points_total: i128,
    pub teleop_points_total: i128,
    pub endgame_points_total: i128,
    pub opr: u32,
    pub dpr: u32,
    pub ccwm: u32,
}

/// The content of a `TeamStats`.
pub struct TeamStatsView {
    pub team_key: Seq<char>,
    pub team_number: i32,
    pub team_name: Seq<char>,
    pub rank: i32,
    pub total_teams: i32,
    pub record: Seq<char>,
    pub matches_played: nat,
    pub rp_average: u32,
    pub auto_points_total: int,
    pub teleop_points_total: int,
    pub endgame_points_total: int,
    pub opr: u32,
    pub dpr: u32,
    pub ccwm: u32,
}

impl View for TeamStats {
    type V = TeamStatsView;

    open spec fn view(&self) -> TeamStatsView {
        TeamStatsView {
            team_key: self.team_key@,
            team_number: self.team_number,
            team_name: self.team_name@,
            rank: self.rank,
            total_teams: self.total_teams,
            record: self.record@,
            matches_played: self.matches_played as nat,
            rp_average: self.rp_average,
            auto_points_total: self.auto_points_total as int,
            teleop_points_total: self.teleop_points_total as int,
            endgame_points_total: self.endgame_points_total as int,
            opr: self.opr,
            dpr: self.dpr,
            ccwm: self.ccwm,
        }
    }
}

/// Statistics with every field empty or zero.
pub open spec fn empty_stats() -> TeamStatsView {
    TeamStatsView {
        team_key: Seq::empty(),
        team_number: 0,
        team_name: Seq::empty(),
        rank: 0,
        total_teams: 0,
        record: Seq::empty(),
        matches_played: 0,
        rp_average: 0,
        auto_points_total: 0,
        teleop_points_total: 0,
        endgame_points_total: 0,
        opr: 0,
        dpr: 0,
        ccwm: 0,
    }
}

impl Default for TeamStats {
    fn default() -> (r: TeamStats)
        ensures
            r@ == empty_stats(),
    {
        TeamStats {
            team_key: String::new(),
            team_number: 0,
            team_name: String::new(),
            rank: 0,
            total_teams: 0,
            record: String::new(),
            matches_played: 0,
            rp_average: 0,
            auto_points_total: 0,
            teleop_points_total: 0,
            endgame_points_total: 0,
            opr: 0,
            dpr: 0,
            ccwm: 0,
        }
    }
}

impl TeamStats {
    /// A copy of the statistics.
    pub fn duplicate(&self) -> (r: TeamStats)
        ensures
            r == *self,
    {
        TeamStats {
            team_key: self.team_key.clone(),
            team_number: self.team_number,
            team_name: self.team_name.clone(),
            rank: self.rank,
            total_teams: self.total_teams,
            record: self.record.clone(),
            matches_played: self.matches_played,
            rp_average: self.rp_average,
            auto_points_total: self.auto_points_total,
            teleop_points_total: self.teleop_points_total,
            endgame_points_total: self.endgame_points_total,
            opr: self.opr,
            dpr: self.dpr,
            ccwm: self.ccwm,
        }
    }
}

/// The alliance lists the team `key`.
pub open spec fn in_alliance(key: Seq<char>, a: Alliance) -> bool {
    exists|i: int| 0 <= i < a.team_keys@.len() && (#[trigger] a.team_keys@[i])@ == key
}

/// The team `key` plays in the match, on either alliance.
pub open spec fn team_in_match(key: Seq<char>, m: Match) -> bool {
    in_alliance(key, m.alliances.blue) || in_alliance(key, m.alliances.red)
}

/// Auto, teleop and endgame points of the alliance that the team `key`
/// plays on (blue if it is listed there, red otherwise); zero for fields
/// the breakdown lacks, and all zero without a breakdown.
pub open spec fn team_points(key: Seq<char>, m: Match) -> (i64, i64, i64) {
    match m.score_breakdown {
        Some(b) => {
            let a = if in_alliance(key, m.alliances.blue) {
                b.blue
            } else {
                b.red
            };
            (
                if a.auto_points is Some { a.auto_points->0 } else { 0 },
                if a.teleop_points is Some { a.teleop_points->0 } else { 0 },
                if a.endgame_points is Some { a.endgame_points->0 } else { 0 },
            )
        },
        None => (0, 0, 0),
    }
}

/// A match that counts for the team's statistics: completed, with the team in it.
pub open spec fn counts_for(key: Seq<char>, m: Match) -> bool {
    m.actual_time is Some && team_in_match(key, m)
}

/// Number of matches of `ms` that count for the team.
pub open spec fn played_count(key: Seq<char>, ms: Seq<Match>) -> nat
    decreases ms.len(),
{
    if ms.len() == 0 {
        0
    } else {
        played_count(key, ms.drop_last()) + if counts_for(key, ms.last()) {
            1nat
        } else {
            0nat
        }
    }
}

/// Sums of the team's auto, teleop and endgame points over the matches of
/// `ms` that count for it.
pub open spec fn points_totals(key: Seq<char>, ms: Seq<Match>) -> (int, int, int)
    decreases ms.len(),
{
    if ms.len() == 0 {
        (0, 0, 0)
    } else {
        let prev = points_totals(key, ms.drop_last());
        if counts_for(key, ms.last()) {
            let p = team_points(key, ms.last());
            (prev.0 + p.0, prev.1 + p.1, prev.2 + p.2)
        } else {
            prev
        }
    }
}

/// A team with no completed match has zero point totals: its averages are
/// shown as zero.
pub proof fn lemma_no_matches_no_points(key: Seq<char>, ms: Seq<Match>)
    requires
        played_count(key, ms) == 0,
    ensures
        points_totals(key, ms) == (0int, 0int, 0int),
    decreases ms.len(),
{
    if ms.len() > 0 {
        lemma_no_matches_no_points(key, ms.drop_last());
    }
}

/// A match that does not count for a team changes neither its number of
/// played matches nor its point totals, wherever it is inserted.
pub proof fn lemma_uncounted_match_keeps_totals(key: Seq<char>, ms: Seq<Match>, k: int, m: Match)
    requires
        0 <= k <= ms.len(),
        !counts_for(key, m),
    ensures
        played_count(key, ms.insert(k, m)) == played_count(key, ms),
        points_totals(key, ms.insert(k, m)) == points_totals(key, ms),
    decreases ms.len(),
{
    let with = ms.insert(k, m);
    if k == ms.len() {
        assert(with.drop_last() =~= ms);
    } else {
        let shorter = ms.drop_last();
        lemma_uncounted_match_keeps_totals(key, shorter, k, m);
        assert(with.drop_last() =~= shorter.insert(k, m));
        assert(with.last() == ms.last());
    }
}

/// A record as "wins-losses-ties".
pub open spec fn record_text(r: WLTRecord) -> Seq<char> {
    int_text(r.wins as int) + "-"@ + int_text(r.losses as int) + "-"@ + int_text(r.ties as int)
}

/// The team's key is `key`.
pub open spec fn team_has_key(key: Seq<char>) -> spec_fn(Team) -> bool {
    |t: Team| t.key@ == key
}

/// The ranking is for team `key`.
pub open spec fn ranking_has_key(key: Seq<char>) -> spec_fn(Ranking) -> bool {
    |r: Ranking| r.team_key@ == key
}

/// Position of the first team with key `key`, or -1.
pub open spec fn team_position(teams: Seq<Team>, key: Seq<char>) -> int {
    first_index(teams, team_has_key(key))
}

/// Position of the first ranking of team `key`, or -1.
pub open spec fn ranking_position(rankings: Seq<Ranking>, key: Seq<char>) -> int {
    first_index(rankings, ranking_has_key(key))
}

/// A team listed under `key` is found, at or before its place.
pub proof fn lemma_team_found(teams: Seq<Team>, key: Seq<char>, idx: int)
    requires
        0 <= idx < teams.len(),
        teams[idx].key@ == key,
    ensures
        0 <= team_position(teams, key) <= idx,
        teams[team_position(teams, key)].key@ == key,
{
    crate::search::lemma_first_index_meaning(teams, team_has_key(key));
    assert(team_has_key(key)(teams[idx]));
}

/// A ranking listed under `key` is found, at or before its place.
pub proof fn lemma_ranking_found(rankings: Seq<Ranking>, key: Seq<char>, idx: int)
    requires
        0 <= idx < rankings.len(),
        rankings[idx].team_key@ == key,
    ensures
        0 <= ranking_position(rankings, key) <= idx,
        rankings[ranking_position(rankings, key)].team_key@ == key,
{
    crate::search::lemma_first_index_meaning(rankings, ranking_has_key(key));
    assert(ranking_has_key(key)(rankings[idx]));
}

/// Statistics of a ranked team: present when both the team and its ranking
/// are found.
pub open spec fn ranked_stats(
    key: Seq<char>,
    teams: Seq<Team>,
    rankings: Seq<Ranking>,
    matches: Seq<Match>,
    oprs: Seq<(String, u32)>,
) -> Option<TeamStatsView> {
    let ti = team_position(teams, key);
    let ri = ranking_position(rankings, key);
    if ti < 0 || ri < 0 {
        None
    } else {
        let team = teams[ti];
        let ranking = rankings[ri];
        let played = played_count(key, matches);
        let totals = points_totals(key, matches);
        Some(
            TeamStatsView {
                team_key: key,
                team_number: team.team_number,
                team_name: team.nickname@,
                rank: ranking.rank,
                total_teams: rankings.len() as i32,
                record: record_text(ranking.record),
                matches_played: played,
                rp_average: if played > 0 && ranking.sort_orders@.len() > 0 {
                    ranking.sort_orders@[0]
                } else {
                    0
                },
                auto_points_total: totals.0,
                teleop_points_total: totals.1,
                endgame_points_total: totals.2,
                opr: rating_of(oprs, key),
                dpr: 0,
                ccwm: 0,
            },
        )
    }
}

/// Statistics of a team without a ranking: rank 0, record "0-0-0", out of
/// all teams; empty statistics when the team is not found.
pub open spec fn unranked_stats(
    key: Seq<char>,
    teams: Seq<Team>,
    matches: Seq<Match>,
    oprs: Seq<(String, u32)>,
) -> TeamStatsView {
    let ti = team_position(teams, key);
    if ti < 0 {
        empty_stats()
    } else {
        let team = teams[ti];
        let totals = points_totals(key, matches);
        TeamStatsView {
            team_key: key,
            team_number: team.team_number,
            team_name: team.nickname@,
            rank: 0,
            total_teams: teams.len() as i32,
            record: "0-0-0"@,
            matches_played: played_count(key, matches),
            rp_average: 0,
            auto_points_total: totals.0,
            teleop_points_total: totals.1,
            endgame_points_total: totals.2,
            opr: rating_of(oprs, key),
            dpr: 0,
            ccwm: 0,
        }
    }
}

/// Adding a match that does not count for a team (one not played yet, or
/// one the team is not in), at any place in the list, leaves the team's
/// statistics unchanged, ranked or not.
pub proof fn lemma_uncounted_match_keeps_stats(
    key: Seq<char>,
    teams: Seq<Team>,
    rankings: Seq<Ranking>,
    matches: Seq<Match>,
    oprs: Seq<(String, u32)>,
    k: int,
    m: Match,
)
    requires
        0 <= k <= matches.len(),
        !counts_for(key, m),
    ensures
        ranked_stats(key, teams, rankings, matches.insert(k, m), oprs) == ranked_stats(
            key,
            teams,
            rankings,
            matches,
            oprs,
        ),
        unranked_stats(key, teams, matches.insert(k, m), oprs) == unranked_stats(key, teams, matches, oprs),
{
    lemma_uncounted_match_keeps_totals(key, matches, k, m);
}

/// A completed match that the team plays in, inserted anywhere in the list,
/// adds one played match and adds to the point totals the auto, teleop and
/// endgame points of the team's alliance (blue when the team is listed
/// there, red otherwise; a missing value counts as zero, and no breakdown
/// adds nothing).
pub proof fn lemma_counted_match_adds_points(key: Seq<char>, ms: Seq<Match>, k: int, m: Match)
    requires
        0 <= k <= ms.len(),
        m.actual_time is Some,
        team_in_match(key, m),
    ensures
        played_count(key, ms.insert(k, m)) == played_count(key, ms) + 1,
        ({
            let before = points_totals(key, ms);
            let after = points_totals(key, ms.insert(k, m));
            match m.score_breakdown {
                Some(b) => {
                    let a = if in_alliance(key, m.alliances.blue) { b.blue } else { b.red };
                    &&& after.0 == before.0 + (match a.auto_points { Some(v) => v as int, None => 0 })
                    &&& after.1 == before.1 + (match a.teleop_points { Some(v) => v as int, None => 0 })
                    &&& after.2 == before.2 + (match a.endgame_points { Some(v) => v as int, None => 0 })
                },
                None => after == before,
            }
        }),
    decreases ms.len(),
{
    let with = ms.insert(k, m);
    if k == ms.len() {
        assert(with.drop_last() =~= ms);
    } else {
        let shorter = ms.drop_last();
        lemma_counted_match_adds_points(key, shorter, k, m);
        assert(with.drop_last() =~= shorter.insert(k, m));
        assert(with.last() == ms.last());
    }
}

/// The statistics of a ranked team come from its entry in the team list and
/// from its first ranking: number and name from the team, rank and record
/// from the ranking, the number of rankings as the number of teams, and as
/// RP average the first sort order of the ranking (its ranking score) once
/// the team has played a counted match, zero before that or when the
/// ranking has no sort orders. Played matches and point totals are those
/// over the counted matches, the OPR is the team's rating, and DPR and CCWM
/// are zero.
pub proof fn lemma_ranked_stats_sources(
    key: Seq<char>,
    teams: Seq<Team>,
    rankings: Seq<Ranking>,
    matches: Seq<Match>,
    oprs: Seq<(String, u32)>,
    t: int,
    i: int,
)
    requires
        0 <= t < teams.len(),
        teams[t].key@ == key,
        forall|j: int| 0 <= j < t ==> (#[trigger] teams[j]).key@ != key,
        0 <= i < rankings.len(),
        rankings[i].team_key@ == key,
        forall|j: int| 0 <= j < i ==> (#[trigger] rankings[j]).team_key@ != key,
    ensures
        ranked_stats(key, teams, rankings, matches, oprs) is Some,
        ({
            let s = ranked_stats(key, teams, rankings, matches, oprs)->0;
            &&& s.team_key == key
            &&& s.team_number == teams[t].team_number
            &&& s.team_name == teams[t].nickname@
            &&& s.rank == rankings[i].rank
            &&& s.total_teams == rankings.len() as i32
            &&& s.record == int_text(rankings[i].record.wins as int) + "-"@ + int_text(
                rankings[i].record.losses as int,
            ) + "-"@ + int_text(rankings[i].record.ties as int)
            &&& (s.matches_played > 0 && rankings[i].sort_orders@.len() > 0 ==> s.rp_average
                == rankings[i].sort_orders@[0])
            &&& (s.matches_played == 0 || rankings[i].sort_orders@.len() == 0 ==> s.rp_average == 0)
            &&& s.matches_played == played_count(key, matches)
            &&& (s.auto_points_total, s.teleop_points_total, s.endgame_points_total) == points_totals(key, matches)
            &&& s.opr == rating_of(oprs, key)
            &&& s.dpr == 0 && s.ccwm == 0
        }),
{
    crate::search::lemma_first_index_found(teams, team_has_key(key), t);
    crate::search::lemma_first_index_found(rankings, ranking_has_key(key), i);
}

/// The statistics of a team without a ranking come from its first entry in
/// the team list, with rank 0, record "0-0-0", RP average 0 and all teams
/// as the number of teams, its counted matches as played matches and its
/// rating as OPR; a team not in the list gets empty statistics.
pub proof fn lemma_unranked_stats_sources(
    key: Seq<char>,
    teams: Seq<Team>,
    matches: Seq<Match>,
    oprs: Seq<(String, u32)>,
)
    ensures
        forall|t: int|
            0 <= t < teams.len() && (#[trigger] teams[t]).key@ == key && (forall|j: int|
                0 <= j < t ==> (#[trigger] teams[j]).key@ != key) ==> {
                let s = unranked_stats(key, teams, matches, oprs);
                &&& s.team_key == key
                &&& s.team_number == teams[t].team_number
                &&& s.team_name == teams[t].nickname@
                &&& s.rank == 0
                &&& s.record == "0-0-0"@
                &&& s.total_teams == teams.len() as i32
                &&& s.rp_average == 0
                &&& s.matches_played == played_count(key, matches)
                &&& s.opr == rating_of(oprs, key)
            },
        (forall|j: int| 0 <= j < teams.len() ==> (#[trigger] teams[j]).key@ != key) ==> unranked_stats(
            key,
            teams,
            matches,
            oprs,
        ) == empty_stats(),
{
    assert forall|t: int|
        0 <= t < teams.len() && (#[trigger] teams[t]).key@ == key && (forall|j: int|
            0 <= j < t ==> (#[trigger] teams[j]).key@ != key) implies {
        let s = unranked_stats(key, teams, matches, oprs);
        &&& s.team_key == key
        &&& s.team_number == teams[t].team_number
        &&& s.team_name == teams[t].nickname@
        &&& s.rank == 0
        &&& s.record == "0-0-0"@
        &&& s.total_teams == teams.len() as i32
        &&& s.rp_average == 0
        &&& s.matches_played == played_count(key, matches)
        &&& s.opr == rating_of(oprs, key)
    } by {
        crate::search::lemma_first_index_found(teams, team_has_key(key), t);
    }
    if forall|j: int| 0 <= j < teams.len() ==> (#[trigger] teams[j]).key@ != key {
        crate::search::lemma_first_index_absent(teams, team_has_key(key));
    }
}

fn alliance_has(team_key: &str, a: &Alliance) -> (r: bool)
    ensures
        r == in_alliance(team_key@, *a),
{
    for i in 0..a.team_keys.len()
        invariant
            forall|j: int| 0 <= j < i ==> (#[trigger] a.team_keys@[j])@ != team_key@,
    {
        if str_eq(a.team_keys[i].as_str(), team_key) {
            return true;
        }
    }
    false
}

/// Whether the team is listed on the blue alliance of the match.
pub fn team_is_in_match_blue(team_key: &str, match_data: &Match) -> (r: bool)
    ensures
        r == in_alliance(team_key@, match_data.alliances.blue),
{
    alliance_has(team_key, &match_data.alliances.blue)
}

/// Whether the team plays in the match, on either alliance.
pub fn team_is_in_match(team_key: &str, match_data: &Match) -> (r: bool)
    ensures
        r == team_in_match(team_key@, *match_data),
{
    alliance_has(team_key, &match_data.alliances.blue) || alliance_has(team_key, &match_data.alliances.red)
}

/// Auto, teleop and endgame points of the team's alliance in the match.
pub fn extract_points_for_team(team_key: &str, match_data: &Match) -> (r: (i64, i64, i64))
    ensures
        r == team_points(team_key@, *match_data),
{
    let on_blue = alliance_has(team_key, &match_data.alliances.blue);
    match &match_data.score_breakdown {
        Some(b) => {
            let a = if on_blue {
                b.blue
            } else {
                b.red
            };
            (
                match a.auto_points {
                    Some(p) => p,
                    None => 0,
                },
                match a.teleop_points {
                    Some(p) => p,
                    None => 0,
                },
                match a.endgame_points {
                    Some(p) => p,
                    None => 0,
                },
            )
        },
        None => (0, 0, 0),
    }
}

/// Counts the matches that count for the team and sums its points there.
fn completed_totals(team_key: &str, matches: &[Match]) -> (r: (usize, i128, i128, i128))
    ensures
        r.0 == played_count(team_key@, matches@),
        r.1 == points_totals(team_key@, matches@).0,
        r.2 == points_totals(team_key@, matches@).1,
        r.3 == points_totals(team_key@, matches@).2,
{
    let mut count: usize = 0;
    let mut auto: i128 = 0;
    let mut teleop: i128 = 0;
    let mut endgame: i128 = 0;
    let n = matches.len();
    for i in 0..n
        invariant
            n == matches@.len(),
            count <= i,
            count == played_count(team_key@, matches@.take(i as int)),
            auto == points_totals(team_key@, matches@.take(i as int)).0,
            teleop == points_totals(team_key@, matches@.take(i as int)).1,
            endgame == points_totals(team_key@, matches@.take(i as int)).2,
            -(count * 0x8000_0000_0000_0000) <= auto <= count * 0x8000_0000_0000_0000,
            -(count * 0x8000_0000_0000_0000) <= teleop <= count * 0x8000_0000_0000_0000,
            -(count * 0x8000_0000_0000_0000) <= endgame <= count * 0x8000_0000_0000_0000,
    {
        let m = &matches[i];
        proof {
            assert(matches@.take(i + 1).drop_last() =~= matches@.take(i as int));
            assert(matches@.take(i + 1).last() == matches@[i as int]);
        }
        if m.actual_time.is_some() && team_is_in_match(team_key, m) {
            let (a, t, e) = extract_points_for_team(team_key, m);
            auto = auto + a as i128;
            teleop = teleop + t as i128;
            endgame = endgame + e as i128;
            count = count + 1;
        }
    }
    proof {
        assert(matches@.take(n as int) =~= matches@);
    }
    (count, auto, teleop, endgame)
}

/// Position of the first team with the given key.
pub fn find_team(teams: &[Team], team_key: &str) -> (r: Option<usize>)
    ensures
        match r {
            Some(i) => i as int == team_position(teams@, team_key@) && i < teams@.len(),
            None => team_position(teams@, team_key@) < 0,
        },
{
    let ghost pred = team_has_key(team_key@);
    for i in 0..teams.len()
        invariant
            pred == team_has_key(team_key@),
            forall|j: int| 0 <= j < i ==> !pred(#[trigger] teams@[j]),
    {
        if str_eq(teams[i].key.as_str(), team_key) {
            proof {
                lemma_first_index_found(teams@, pred, i as int);
            }
            return Some(i);
        }
    }
    proof {
        lemma_first_index_absent(teams@, pred);
    }
    None
}

fn find_ranking(rankings: &[Ranking], team_key: &str) -> (r: Option<usize>)
    ensures
        match r {
            Some(i) => i as int == ranking_position(rankings@, team_key@) && i < rankings@.len(),
            None => ranking_position(rankings@, team_key@) < 0,
        },
{
    let ghost pred = ranking_has_key(team_key@);
    for i in 0..rankings.len()
        invariant
            pred == ranking_has_key(team_key@),
            forall|j: int| 0 <= j < i ==> !pred(#[trigger] rankings@[j]),
    {
        if str_eq(rankings[i].team_key.as_str(), team_key) {
            proof {
                lemma_first_index_found(rankings@, pred, i as int);
            }
            return Some(i);
        }
    }
    proof {
        lemma_first_index_absent(rankings@, pred);
    }
    None
}

fn record_string(r: WLTRecord) -> (s: String)
    ensures
        s@ == record_text(r),
{
    proof {
        reveal_strlit("-");
    }
    let mut s = String::new();
    push_int(&mut s, r.wins as i64);
    s.append("-");
    push_int(&mut s, r.losses as i64);
    s.append("-");
    push_int(&mut s, r.ties as i64);
    assert(s@ =~= record_text(r));
    s
}

/// Statistics of a ranked team; `None` when the team or its ranking is missing.
pub fn calculate_team_stats(
    team_key: &str,
    teams: &[Team],
    rankings: &[Ranking],
    matches: &[Match],
    oprs: &Vec<(String, u32)>,
) -> (r: Option<TeamStats>)
    ensures
        match r {
            Some(s) => ranked_stats(team_key@, teams@, rankings@, matches@, oprs@) == Some(s@),
            None => ranked_stats(team_key@, teams@, rankings@, matches@, oprs@) is None,
        },
{
    let ti = match find_team(teams, team_key) {
        Some(i) => i,
        None => return None,
    };
    let ri = match find_ranking(rankings, team_key) {
        Some(i) => i,
        None => return None,
    };
    let team = &teams[ti];
    let ranking = &rankings[ri];
    let (played, auto, teleop, endgame) = completed_totals(team_key, matches);
    let rp_average = if played > 0 && ranking.sort_orders.len() > 0 {
        ranking.sort_orders[0]
    } else {
        0
    };
    let stats = TeamStats {
        team_key: text_of(team_key),
        team_number: team.team_number,
        team_name: team.nickname.clone(),
        rank: ranking.rank,
        total_teams: rankings.len() as i32,
        record: record_string(ranking.record),
        matches_played: played,
        rp_average,
        auto_points_total: auto,
        teleop_points_total: teleop,
        endgame_points_total: endgame,
        opr: rating_for(oprs, team_key),
        dpr: 0,
        ccwm: 0,
    };
    Some(stats)
}

/// Statistics of a team that has no ranking yet.
pub fn create_unranked_team_stats(
    team_key: &str,
    teams: &[Team],
    matches: &[Match],
    oprs: &Vec<(String, u32)>,
) -> (r: TeamStats)
    ensures
        r@ == unranked_stats(team_key@, teams@, matches@, oprs@),
{
    let (played, auto, teleop, endgame) = completed_totals(team_key, matches);
    let opr = rating_for(oprs, team_key);
    match find_team(teams, team_key) {
        Some(ti) => {
            proof {
                reveal_strlit("0-0-0");
            }
            let team = &teams[ti];
            TeamStats {
                team_key: text_of(team_key),
                team_number: team.team_number,
                team_name: team.nickname.clone(),
                rank: 0,
                total_teams: teams.len() as i32,
                record: text_of("0-0-0"),
                matches_played: played,
                rp_average: 0,
                auto_points_total: auto,
                teleop_points_total: teleop,
                endgame_points_total: endgame,
                opr,
                dpr: 0,
                ccwm: 0,
            }
        },
        None => TeamStats::default(),
    }
}

} // verus!
