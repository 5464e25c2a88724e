//! Application state: the loaded event data, the team list shown on the
//! main screen, the current screen and the screens to go back to.

use vstd::prelude::*;
use crate::models::{Event, EventOPRs, Match, Ranking, Team, same_match, same_matches};
use crate::search::{first_index, lemma_first_index_absent, lemma_first_index_found};
use crate::sorting::{arrange, holds_index, is_stable_order, stable_order, stable_sorted, lemma_stable_sorted_by_order};
use crate::stats::{
    TeamStats, TeamStatsView, calculate_team_stats, find_team, team_position, create_unranked_team_stats, ranked_stats,
    team_in_match, team_is_in_match, unranked_stats,
};
use crate::text::str_eq;
use vstd::view::View as _;

verus! {

/// A screen of the application, with what is selected on it.
#[derive(Debug, Clone)]
pub enum View {
    TeamList { selected_index: usize, search_query: String, searching: bool },
    TeamDetail { team_key: String, selected_match_index: usize },
    MatchDetail { match_key: String, selected_team_index: usize },
    CompetitionBrowser { selected_index: usize },
}

/// The content of a `View`.
pub enum ScreenModel {
    TeamList { selected_index: usize, search_query: Seq<char>, searching: bool },
    TeamDetail { team_key: Seq<char>, selected_match_index: usize },
    MatchDetail { match_key: Seq<char>, selected_team_index: usize },
    CompetitionBrowser { selected_index: usize },
}

impl View {
    /// The content of the screen.
    pub open spec fn model(&self) -> ScreenModel {
        match self {
            View::TeamList { selected_index, search_query, searching } => ScreenModel::TeamList {
                selected_index: *selected_index,
                search_query: search_query@,
                searching: *searching,
            },
            View::TeamDetail { team_key, selected_match_index } => ScreenModel::TeamDetail {
                team_key: team_key@,
                selected_match_index: *selected_match_index,
            },
            View::MatchDetail { match_key, selected_team_index } => ScreenModel::MatchDetail {
                match_key: match_key@,
                selected_team_index: *selected_team_index,
            },
            View::CompetitionBrowser { selected_index } => ScreenModel::CompetitionBrowser {
                selected_index: *selected_index,
            },
        }
    }

    /// A copy of the screen.
    pub fn duplicate(&self) -> (r: View)
        ensures
            r == *self,
    {
        match self {
            View::TeamList { selected_index, search_query, searching } => View::TeamList {
                selected_index: *selected_index,
                search_query: search_query.clone(),
                searching: *searching,
            },
            View::TeamDetail { team_key, selected_match_index } => View::TeamDetail {
                team_key: team_key.clone(),
                selected_match_index: *selected_match_index,
            },
            View::MatchDetail { match_key, selected_team_index } => View::MatchDetail {
                match_key: match_key.clone(),
                selected_team_index: *selected_team_index,
            },
            View::CompetitionBrowser { selected_index } => View::CompetitionBrowser {
                selected_index: *selected_index,
            },
        }
    }
}

/// The loaded event data with the team list derived from it.
#[derive(Debug)]
pub struct AppData {
    pub event: Event,
    pub teams: Vec<Team>,
    pub rankings: Vec<Ranking>,
    pub matches: Vec<Match>,
    pub oprs: EventOPRs,
    pub team_stats: Vec<TeamStats>,
}

/// The application: data, current screen and the history of screens.
#[derive(Debug)]
pub struct App {
    pub data: AppData,
    pub current_view: View,
    pub view_history: Vec<View>,
    pub test_mode: bool,
}

/// The contents of a list of statistics.
pub open spec fn stats_views(s: Seq<TeamStats>) -> Seq<TeamStatsView> {
    s.map_values(|t: TeamStats| t@)
}

/// The statistics of the ranked teams, in ranking order, skipping rankings
/// whose team is unknown.
pub open spec fn ranked_list(
    rs: Seq<Ranking>,
    teams: Seq<Team>,
    rankings: Seq<Ranking>,
    matches: Seq<Match>,
    oprs: Seq<(String, u32)>,
) -> Seq<TeamStatsView>
    decreases rs.len(),
{
    if rs.len() == 0 {
        Seq::empty()
    } else {
        let prev = ranked_list(rs.drop_last(), teams, rankings, matches, oprs);
        match ranked_stats(rs.last().team_key@, teams, rankings, matches, oprs) {
            Some(s) => prev.push(s),
            None => prev,
        }
    }
}

/// Some ranking is for team `key`.
pub open spec fn has_ranking(rankings: Seq<Ranking>, key: Seq<char>) -> bool {
    exists|i: int| 0 <= i < rankings.len() && (#[trigger] rankings[i]).team_key@ == key
}

/// The statistics of the teams without a ranking, in team order.
pub open spec fn unranked_list(
    ts: Seq<Team>,
    teams: Seq<Team>,
    rankings: Seq<Ranking>,
    matches: Seq<Match>,
    oprs: Seq<(String, u32)>,
) -> Seq<TeamStatsView>
    decreases ts.len(),
{
    if ts.len() == 0 {
        Seq::empty()
    } else {
        let prev = unranked_list(ts.drop_last(), teams, rankings, matches, oprs);
        if has_ranking(rankings, ts.last().key@) {
            prev
        } else {
            prev.push(unranked_stats(ts.last().key@, teams, matches, oprs))
        }
    }
}

/// Number of ranked teams at the head of the team list.
pub open spec fn ranked_count(
    teams: Seq<Team>,
    rankings: Seq<Ranking>,
    matches: Seq<Match>,
    oprs: Seq<(String, u32)>,
) -> nat {
    ranked_list(rankings, teams, rankings, matches, oprs).len()
}

/// The list holds statistics of team `key`.
pub open spec fn lists_team(stats: Seq<TeamStats>, key: Seq<char>) -> bool {
    exists|k: int| 0 <= k < stats.len() && (#[trigger] stats[k]).team_key@ == key
}

/// Ranks as sort keys.
pub open spec fn rank_keys(s: Seq<TeamStatsView>) -> Seq<i64> {
    s.map_values(|v: TeamStatsView| v.rank as i64)
}

/// Team numbers as sort keys.
pub open spec fn number_keys(s: Seq<TeamStatsView>) -> Seq<i64> {
    s.map_values(|v: TeamStatsView| v.team_number as i64)
}

/// The team list of the main screen: ranked teams by rank, then the teams
/// without a ranking by team number; both sorts keep ties in input order.
pub open spec fn team_list(
    teams: Seq<Team>,
    rankings: Seq<Ranking>,
    matches: Seq<Match>,
    oprs: Seq<(String, u32)>,
) -> Seq<TeamStatsView> {
    let ranked = ranked_list(rankings, teams, rankings, matches, oprs);
    let unranked = unranked_list(teams, teams, rankings, matches, oprs);
    stable_sorted(ranked, rank_keys(ranked)) + stable_sorted(unranked, number_keys(unranked))
}

/// When a match is expected: its actual time, else its predicted time, else
/// its planned time; matches without any time come last.
pub open spec fn schedule_key(m: Match) -> i64 {
    if m.actual_time is Some {
        m.actual_time->0
    } else if m.predicted_time is Some {
        m.predicted_time->0
    } else if m.time is Some {
        m.time->0
    } else {
        i64::MAX
    }
}

/// The matches of team `key`, in the order they are listed.
pub open spec fn matches_of(matches: Seq<Match>, key: Seq<char>) -> Seq<Match> {
    matches.filter(|m: Match| team_in_match(key, m))
}

/// The matches of team `key` in chronological order (ties in list order).
pub open spec fn team_schedule(matches: Seq<Match>, key: Seq<char>) -> Seq<Match> {
    let mine = matches_of(matches, key);
    stable_sorted(mine, mine.map_values(|m: Match| schedule_key(m)))
}

/// The match has key `key`.
pub open spec fn match_has_key(key: Seq<char>) -> spec_fn(Match) -> bool {
    |m: Match| m.key@ == key
}

/// The statistics are those of team `key`.
pub open spec fn stats_have_key(key: Seq<char>) -> spec_fn(TeamStats) -> bool {
    |s: TeamStats| s.team_key@ == key
}

/// Position of the first match with key `key`, or -1.
pub open spec fn match_position(matches: Seq<Match>, key: Seq<char>) -> int {
    first_index(matches, match_has_key(key))
}

/// Position of the first statistics of team `key`, or -1.
pub open spec fn stats_position(stats: Seq<TeamStats>, key: Seq<char>) -> int {
    first_index(stats, stats_have_key(key))
}

/// A team's schedule holds the team's matches and only them, in
/// chronological order: by actual time, else predicted time, else planned
/// time, with matches that have none of these last.
pub proof fn lemma_team_schedule(matches: Seq<Match>, key: Seq<char>)
    requires
        matches.len() <= usize::MAX,
    ensures
        ({
            let s = team_schedule(matches, key);
            let when = |m: Match|
                if m.actual_time is Some {
                    m.actual_time->0 as int
                } else if m.predicted_time is Some {
                    m.predicted_time->0 as int
                } else if m.time is Some {
                    m.time->0 as int
                } else {
                    i64::MAX as int
                };
            let plays = |m: Match|
                (exists|j: int| 0 <= j < m.alliances.blue.team_keys@.len() && (#[trigger] m.alliances.blue.team_keys@[j])@ == key)
                || (exists|j: int| 0 <= j < m.alliances.red.team_keys@.len() && (#[trigger] m.alliances.red.team_keys@[j])@ == key);
            &&& forall|k: int| 0 <= k < s.len() ==> plays(#[trigger] s[k]) && matches.contains(s[k])
            &&& forall|i: int| 0 <= i < matches.len() && plays(#[trigger] matches[i]) ==> s.contains(matches[i])
            &&& forall|k: int, l: int| 0 <= k < l < s.len() ==> when(#[trigger] s[k]) <= when(#[trigger] s[l])
        }),
{
    let pred = |m: Match| team_in_match(key, m);
    let mine = matches_of(matches, key);
    matches.filter_lemma(pred);
    assert(mine == matches.filter(pred));
    let keys = mine.map_values(|m: Match| schedule_key(m));
    crate::sorting::lemma_stable_sorted_meaning(mine, keys);
    let o = choose|o: Seq<usize>| is_stable_order(o, keys);
    let s = team_schedule(matches, key);
    assert(s == arrange(mine, o));
    assert forall|k: int| 0 <= k < s.len() implies team_in_match(key, #[trigger] s[k]) && matches.contains(s[k]) by {
        assert(s[k] == mine[o[k] as int]);
        assert(pred(mine[o[k] as int]));
        assert(mine.contains(mine[o[k] as int]));
        matches.lemma_filter_contains_rev(pred, mine[o[k] as int]);
    }
    assert forall|i: int| 0 <= i < matches.len() && team_in_match(key, #[trigger] matches[i]) implies s.contains(matches[i]) by {
        assert(mine.contains(matches[i]));
        let j = choose|j: int| 0 <= j < mine.len() && mine[j] == matches[i];
        assert(holds_index(o, j));
        let k = choose|k: int| 0 <= k < o.len() && o[k] == j;
        assert(s[k] == matches[i]);
    }
    assert forall|k: int, l: int| 0 <= k < l < s.len() implies schedule_key(#[trigger] s[k]) <= schedule_key(#[trigger] s[l]) by {
        assert(crate::sorting::stands_before(keys, o[k] as int, o[l] as int));
        assert(s[k] == mine[o[k] as int] && s[l] == mine[o[l] as int]);
    }
}

/// The screen state: the current screen and the screens to go back to.
pub open spec fn screens(app: App) -> (View, Seq<View>) {
    (app.current_view, app.view_history@)
}

/// The contents of the screen state.
pub open spec fn screen_models(app: App) -> (ScreenModel, Seq<ScreenModel>) {
    (app.current_view.model(), app.view_history@.map_values(|v: View| v.model()))
}

/// Showing another screen in place of the current one.
pub open spec fn replace_screen(state: (ScreenModel, Seq<ScreenModel>), screen: ScreenModel) -> (ScreenModel, Seq<ScreenModel>) {
    (screen, state.1)
}

/// Opening a screen, in terms of screen contents.
pub open spec fn open_screen(state: (ScreenModel, Seq<ScreenModel>), screen: ScreenModel) -> (ScreenModel, Seq<ScreenModel>) {
    (screen, state.1.push(state.0))
}

/// Going back, in terms of screen contents.
pub open spec fn back_screen(state: (ScreenModel, Seq<ScreenModel>)) -> (ScreenModel, Seq<ScreenModel>) {
    if state.1.len() > 0 {
        (state.1.last(), state.1.drop_last())
    } else {
        state
    }
}

/// Position of the most recent team list among the remembered screens, or -1.
pub open spec fn last_team_list(history: Seq<ScreenModel>) -> int
    decreases history.len(),
{
    if history.len() == 0 {
        -1
    } else if history.last() is TeamList {
        history.len() - 1
    } else {
        last_team_list(history.drop_last())
    }
}

/// Going back to the most recent team list: it becomes the current screen
/// and the screens remembered after it are dropped. Without a team list to
/// return to, this is going back one screen.
pub open spec fn back_to_list_screen(state: (ScreenModel, Seq<ScreenModel>)) -> (ScreenModel, Seq<ScreenModel>) {
    let i = last_team_list(state.1);
    if i >= 0 {
        (state.1[i], state.1.take(i))
    } else {
        back_screen(state)
    }
}

/// The most recent team list is a remembered team list, and no later
/// remembered screen is one.
pub proof fn lemma_last_team_list(history: Seq<ScreenModel>)
    ensures
        -1 <= last_team_list(history) < history.len(),
        last_team_list(history) >= 0 ==> history[last_team_list(history)] is TeamList,
        forall|j: int| last_team_list(history) < j < history.len() ==> !(#[trigger] history[j] is TeamList),
    decreases history.len(),
{
    if history.len() > 0 && !(history.last() is TeamList) {
        lemma_last_team_list(history.drop_last());
        assert forall|j: int| last_team_list(history) < j < history.len() implies !(#[trigger] history[j] is TeamList) by {
            if j < history.len() - 1 {
                assert(history[j] == history.drop_last()[j]);
            }
        }
    }
}

/// Leaving for the team list shows a team list whenever one is remembered.
pub proof fn lemma_back_to_list_shows_list(state: (ScreenModel, Seq<ScreenModel>), j: int)
    requires
        0 <= j < state.1.len(),
        state.1[j] is TeamList,
    ensures
        back_to_list_screen(state).0 is TeamList,
        back_to_list_screen(state).1.len() < state.1.len(),
{
    lemma_last_team_list(state.1);
}

/// Opening a screen: the current one is remembered.
pub open spec fn opened(state: (View, Seq<View>), view: View) -> (View, Seq<View>) {
    (view, state.1.push(state.0))
}

/// Going back: the last remembered screen returns; without one nothing changes.
pub open spec fn went_back(state: (View, Seq<View>)) -> (View, Seq<View>) {
    if state.1.len() > 0 {
        (state.1.last(), state.1.drop_last())
    } else {
        state
    }
}

/// Going back right after opening a screen returns to the screen state
/// from before.
pub proof fn lemma_back_after_open(state: (View, Seq<View>), view: View)
    ensures
        went_back(opened(state, view)) == state,
{
    assert(state.1.push(state.0).drop_last() =~= state.1);
}

/// Going back with no remembered screen changes nothing.
pub proof fn lemma_back_without_history(state: (View, Seq<View>))
    requires
        state.1.len() == 0,
    ensures
        went_back(state) == state,
{
}

/// Each step back removes one remembered screen, so opening `n` screens
/// and going back `n` times returns to where one started.
pub open spec fn back_n(state: (View, Seq<View>), n: nat) -> (View, Seq<View>)
    decreases n,
{
    if n == 0 {
        state
    } else {
        back_n(went_back(state), (n - 1) as nat)
    }
}

/// Opening the screens of `views` one after another.
pub open spec fn open_all(state: (View, Seq<View>), views: Seq<View>) -> (View, Seq<View>)
    decreases views.len(),
{
    if views.len() == 0 {
        state
    } else {
        opened(open_all(state, views.drop_last()), views.last())
    }
}

/// Going back as many times as screens were opened returns to the start.
pub proof fn lemma_back_undoes_opens(state: (View, Seq<View>), views: Seq<View>)
    ensures
        back_n(open_all(state, views), views.len()) == state,
        open_all(state, views).1.len() == state.1.len() + views.len(),
    decreases views.len(),
{
    if views.len() > 0 {
        let before = open_all(state, views.drop_last());
        lemma_back_after_open(before, views.last());
        lemma_back_undoes_opens(state, views.drop_last());
        assert(went_back(open_all(state, views)) == before);
    }
}

fn sort_stats(stats: Vec<TeamStats>, keys: Vec<i64>) -> (r: Vec<TeamStats>)
    requires
        keys@.len() == stats@.len(),
    ensures
        stats_views(r@) == stable_sorted(stats_views(stats@), keys@),
        exists|o: Seq<usize>| is_stable_order(o, keys@) && r@ == arrange(stats@, o),
{
    let order = stable_order(&keys);
    let n = order.len();
    let mut out: Vec<TeamStats> = Vec::new();
    for k in 0..n
        invariant
            n == order@.len(),
            is_stable_order(order@, keys@),
            keys@.len() == stats@.len(),
            stats_views(out@) =~= arrange(stats_views(stats@), order@).take(k as int),
            out@ =~= arrange(stats@, order@).take(k as int),
    {
        let s = stats[order[k]].duplicate();
        out.push(s);
        assert(arrange(stats_views(stats@), order@).take(k + 1) =~= arrange(stats_views(stats@), order@).take(k as int).push(s@));
        assert(arrange(stats@, order@).take(k + 1) =~= arrange(stats@, order@).take(k as int).push(s));
    }
    proof {
        assert(arrange(stats_views(stats@), order@).take(n as int) =~= arrange(stats_views(stats@), order@));
        assert(arrange(stats@, order@).take(n as int) =~= arrange(stats@, order@));
        lemma_stable_sorted_by_order(stats_views(stats@), keys@, order@);
    }
    out
}

proof fn lemma_ranked_list_contains(
    rs: Seq<Ranking>,
    teams: Seq<Team>,
    rankings: Seq<Ranking>,
    matches: Seq<Match>,
    oprs: Seq<(String, u32)>,
    r: int,
)
    requires
        0 <= r < rs.len(),
        ranked_stats(rs[r].team_key@, teams, rankings, matches, oprs) is Some,
    ensures
        exists|k: int|
            0 <= k < ranked_list(rs, teams, rankings, matches, oprs).len()
                && #[trigger] ranked_list(rs, teams, rankings, matches, oprs)[k]
                == ranked_stats(rs[r].team_key@, teams, rankings, matches, oprs)->0,
    decreases rs.len(),
{
    let prev = ranked_list(rs.drop_last(), teams, rankings, matches, oprs);
    if r == rs.len() - 1 {
        assert(ranked_list(rs, teams, rankings, matches, oprs)[prev.len() as int] == ranked_stats(rs[r].team_key@, teams, rankings, matches, oprs)->0);
    } else {
        assert(rs.drop_last()[r] == rs[r]);
        lemma_ranked_list_contains(rs.drop_last(), teams, rankings, matches, oprs, r);
        let k = choose|k: int| 0 <= k < prev.len() && #[trigger] prev[k] == ranked_stats(rs[r].team_key@, teams, rankings, matches, oprs)->0;
        assert(ranked_list(rs, teams, rankings, matches, oprs)[k] == prev[k]);
    }
}

proof fn lemma_unranked_list_contains(
    ts: Seq<Team>,
    teams: Seq<Team>,
    rankings: Seq<Ranking>,
    matches: Seq<Match>,
    oprs: Seq<(String, u32)>,
    t: int,
)
    requires
        0 <= t < ts.len(),
        !has_ranking(rankings, ts[t].key@),
    ensures
        exists|k: int|
            0 <= k < unranked_list(ts, teams, rankings, matches, oprs).len()
                && #[trigger] unranked_list(ts, teams, rankings, matches, oprs)[k]
                == unranked_stats(ts[t].key@, teams, matches, oprs),
    decreases ts.len(),
{
    let prev = unranked_list(ts.drop_last(), teams, rankings, matches, oprs);
    if t == ts.len() - 1 {
        assert(unranked_list(ts, teams, rankings, matches, oprs)[prev.len() as int] == unranked_stats(ts[t].key@, teams, matches, oprs));
    } else {
        assert(ts.drop_last()[t] == ts[t]);
        lemma_unranked_list_contains(ts.drop_last(), teams, rankings, matches, oprs, t);
        let k = choose|k: int| 0 <= k < prev.len() && #[trigger] prev[k] == unranked_stats(ts[t].key@, teams, matches, oprs);
        assert(unranked_list(ts, teams, rankings, matches, oprs)[k] == prev[k]);
    }
}

proof fn lemma_unranked_list_rank_zero(
    ts: Seq<Team>,
    teams: Seq<Team>,
    rankings: Seq<Ranking>,
    matches: Seq<Match>,
    oprs: Seq<(String, u32)>,
)
    ensures
        forall|k: int| 0 <= k < unranked_list(ts, teams, rankings, matches, oprs).len()
            ==> (#[trigger] unranked_list(ts, teams, rankings, matches, oprs)[k]).rank == 0,
    decreases ts.len(),
{
    if ts.len() > 0 {
        let prev = unranked_list(ts.drop_last(), teams, rankings, matches, oprs);
        let cur = unranked_list(ts, teams, rankings, matches, oprs);
        lemma_unranked_list_rank_zero(ts.drop_last(), teams, rankings, matches, oprs);
        assert(unranked_stats(ts.last().key@, teams, matches, oprs).rank == 0);
        assert forall|k: int| 0 <= k < cur.len() implies (#[trigger] cur[k]).rank == 0 by {
            if k < prev.len() {
                assert(cur[k] == prev[k]);
            }
        }
    }
}

fn has_ranking_exec(rankings: &Vec<Ranking>, key: &str) -> (r: bool)
    ensures
        r == has_ranking(rankings@, key@),
{
    for i in 0..rankings.len()
        invariant
            forall|j: int| 0 <= j < i ==> (#[trigger] rankings@[j]).team_key@ != key@,
    {
        if str_eq(rankings[i].team_key.as_str(), key) {
            return true;
        }
    }
    false
}

/// Builds the team list of the main screen.
pub fn build_team_list(
    teams: &Vec<Team>,
    rankings: &Vec<Ranking>,
    matches: &Vec<Match>,
    oprs: &EventOPRs,
) -> (r: Vec<TeamStats>)
    ensures
        stats_views(r@) == team_list(teams@, rankings@, matches@, oprs.oprs@),
        ranked_count(teams@, rankings@, matches@, oprs.oprs@) <= r@.len(),
        forall|a: int, b: int|
            0 <= a < b < ranked_count(teams@, rankings@, matches@, oprs.oprs@) ==> #[trigger] r@[a].rank <= #[trigger] r@[b].rank,
        forall|a: int, b: int|
            ranked_count(teams@, rankings@, matches@, oprs.oprs@) <= a < b < r@.len()
                ==> #[trigger] r@[a].team_number <= #[trigger] r@[b].team_number,
        forall|a: int| ranked_count(teams@, rankings@, matches@, oprs.oprs@) <= a < r@.len() ==> (#[trigger] r@[a]).rank == 0,
        forall|t: int| 0 <= t < teams@.len() ==> #[trigger] lists_team(r@, teams@[t].key@),
{
    let mut ranked: Vec<TeamStats> = Vec::new();
    let mut ranked_keys: Vec<i64> = Vec::new();
    for i in 0..rankings.len()
        invariant
            stats_views(ranked@) =~= ranked_list(rankings@.take(i as int), teams@, rankings@, matches@, oprs.oprs@),
            ranked_keys@ =~= rank_keys(stats_views(ranked@)),
    {
        proof {
            assert(rankings@.take(i + 1).drop_last() =~= rankings@.take(i as int));
        }
        match calculate_team_stats(rankings[i].team_key.as_str(), teams.as_slice(), rankings.as_slice(), matches.as_slice(), &oprs.oprs) {
            Some(s) => {
                ranked_keys.push(s.rank as i64);
                ranked.push(s);
            },
            None => {},
        }
    }
    proof {
        assert(rankings@.take(rankings@.len() as int) =~= rankings@);
    }
    let mut unranked: Vec<TeamStats> = Vec::new();
    let mut unranked_keys: Vec<i64> = Vec::new();
    for i in 0..teams.len()
        invariant
            stats_views(unranked@) =~= unranked_list(teams@.take(i as int), teams@, rankings@, matches@, oprs.oprs@),
            unranked_keys@ =~= number_keys(stats_views(unranked@)),
    {
        proof {
            assert(teams@.take(i + 1).drop_last() =~= teams@.take(i as int));
        }
        if !has_ranking_exec(rankings, teams[i].key.as_str()) {
            let s = create_unranked_team_stats(teams[i].key.as_str(), teams.as_slice(), matches.as_slice(), &oprs.oprs);
            unranked_keys.push(s.team_number as i64);
            unranked.push(s);
        }
    }
    proof {
        assert(teams@.take(teams@.len() as int) =~= teams@);
    }
    let ghost rv = ranked@;
    let ghost uv = unranked@;
    let ghost rk = ranked_keys@;
    let ghost uk = unranked_keys@;
    let mut sorted = sort_stats(ranked, ranked_keys);
    let mut rest = sort_stats(unranked, unranked_keys);
    let ghost a = sorted@;
    let ghost b = rest@;
    sorted.append(&mut rest);
    assert(stats_views(sorted@) =~= stats_views(a) + stats_views(b));
    proof {
        let o1 = choose|o: Seq<usize>| is_stable_order(o, rk) && a == arrange(rv, o);
        let o2 = choose|o: Seq<usize>| is_stable_order(o, uk) && b == arrange(uv, o);
        let nr = a.len();
        assert(stats_views(rv).len() == rv.len());
        assert(nr == ranked_count(teams@, rankings@, matches@, oprs.oprs@));
        assert forall|x: int, y: int| 0 <= x < y < nr implies #[trigger] sorted@[x].rank <= #[trigger] sorted@[y].rank by {
            assert(crate::sorting::stands_before(rk, o1[x] as int, o1[y] as int));
            assert(rk[o1[x] as int] == stats_views(rv)[o1[x] as int].rank as i64);
            assert(rk[o1[y] as int] == stats_views(rv)[o1[y] as int].rank as i64);
            assert(sorted@[x] == rv[o1[x] as int]);
            assert(sorted@[y] == rv[o1[y] as int]);
        }
        assert forall|x: int, y: int| nr <= x < y < sorted@.len() implies #[trigger] sorted@[x].team_number <= #[trigger] sorted@[y].team_number by {
            assert(crate::sorting::stands_before(uk, o2[x - nr] as int, o2[y - nr] as int));
            assert(uk[o2[x - nr] as int] == stats_views(uv)[o2[x - nr] as int].team_number as i64);
            assert(uk[o2[y - nr] as int] == stats_views(uv)[o2[y - nr] as int].team_number as i64);
            assert(sorted@[x] == uv[o2[x - nr] as int]);
            assert(sorted@[y] == uv[o2[y - nr] as int]);
        }
        lemma_unranked_list_rank_zero(teams@, teams@, rankings@, matches@, oprs.oprs@);
        assert forall|x: int| nr <= x < sorted@.len() implies (#[trigger] sorted@[x]).rank == 0 by {
            assert(sorted@[x] == uv[o2[x - nr] as int]);
            assert(stats_views(uv)[o2[x - nr] as int].rank == uv[o2[x - nr] as int].rank);
        }
        assert forall|t: int| 0 <= t < teams@.len() implies #[trigger] lists_team(sorted@, teams@[t].key@) by {
            let key = teams@[t].key@;
            crate::stats::lemma_team_found(teams@, key, t);
            if has_ranking(rankings@, key) {
                let ri = choose|i: int| 0 <= i < rankings@.len() && (#[trigger] rankings@[i]).team_key@ == key;
                crate::stats::lemma_ranking_found(rankings@, key, ri);
                lemma_ranked_list_contains(rankings@, teams@, rankings@, matches@, oprs.oprs@, ri);
                let st = ranked_stats(key, teams@, rankings@, matches@, oprs.oprs@)->0;
                let j = choose|j: int| 0 <= j < stats_views(rv).len() && #[trigger] stats_views(rv)[j] == st;
                assert(crate::sorting::holds_index(o1, j));
                let k = choose|k: int| 0 <= k < o1.len() && #[trigger] o1[k] == j;
                assert(sorted@[k] == rv[j]);
                assert(sorted@[k].team_key@ == key);
            } else {
                lemma_unranked_list_contains(teams@, teams@, rankings@, matches@, oprs.oprs@, t);
                let st = unranked_stats(key, teams@, matches@, oprs.oprs@);
                let j = choose|j: int| 0 <= j < stats_views(uv).len() && #[trigger] stats_views(uv)[j] == st;
                assert(crate::sorting::holds_index(o2, j));
                let k = choose|k: int| 0 <= k < o2.len() && #[trigger] o2[k] == j;
                assert(sorted@[nr + k] == uv[j]);
                assert(sorted@[nr + k].team_key@ == key);
            }
        }
    }
    sorted
}

/// Why loaded data cannot be browsed.
#[derive(Debug, Clone, Copy)]
pub enum LoadError {
    /// The event has no registered teams yet.
    NoTeams,
}

impl LoadError {
    /// The message shown for the error.
    pub fn message(&self) -> (r: String)
        ensures
            r@ == "No teams registered for this event yet."@,
    {
        crate::text::text_of("No teams registered for this event yet.")
    }
}

impl App {
    /// The application for freshly loaded data: an error when the event
    /// has no teams, else the application that `App::new` builds.
    pub fn from_loaded(
        event: Event,
        teams: Vec<Team>,
        rankings: Vec<Ranking>,
        matches: Vec<Match>,
        oprs: EventOPRs,
        test_mode: bool,
    ) -> (r: Result<App, LoadError>)
        ensures
            match r {
                Ok(app) => {
                    &&& teams@.len() > 0
                    &&& app.data.teams == teams
                    &&& app.data.event == event
                    &&& app.data.rankings == rankings
                    &&& app.data.matches == matches
                    &&& app.data.oprs == oprs
                    &&& stats_views(app.data.team_stats@) == team_list(teams@, rankings@, matches@, oprs.oprs@)
                    &&& app.current_view.model() == (ScreenModel::TeamList {
                        selected_index: 0,
                        search_query: Seq::empty(),
                        searching: false,
                    })
                    &&& app.view_history@.len() == 0
                    &&& app.test_mode == test_mode
                },
                Err(_) => teams@.len() == 0,
            },
    {
        if teams.len() == 0 {
            return Err(LoadError::NoTeams);
        }
        Ok(App::new(event, teams, rankings, matches, oprs, test_mode))
    }

    /// The application on its main screen, showing the team list built
    /// from the data.
    pub fn new(
        event: Event,
        teams: Vec<Team>,
        rankings: Vec<Ranking>,
        matches: Vec<Match>,
        oprs: EventOPRs,
        test_mode: bool,
    ) -> (r: App)
        ensures
            r.data.event == event,
            r.data.teams == teams,
            r.data.rankings == rankings,
            r.data.matches == matches,
            r.data.oprs == oprs,
            stats_views(r.data.team_stats@) == team_list(teams@, rankings@, matches@, oprs.oprs@),
            r.current_view.model() == (ScreenModel::TeamList {
                selected_index: 0,
                search_query: Seq::empty(),
                searching: false,
            }),
            r.view_history@.len() == 0,
            r.test_mode == test_mode,
            ranked_count(teams@, rankings@, matches@, oprs.oprs@) <= r.data.team_stats@.len(),
            forall|a: int, b: int|
                0 <= a < b < ranked_count(teams@, rankings@, matches@, oprs.oprs@)
                    ==> #[trigger] r.data.team_stats@[a].rank <= #[trigger] r.data.team_stats@[b].rank,
            forall|a: int, b: int|
                ranked_count(teams@, rankings@, matches@, oprs.oprs@) <= a < b < r.data.team_stats@.len()
                    ==> #[trigger] r.data.team_stats@[a].team_number <= #[trigger] r.data.team_stats@[b].team_number,
            forall|a: int|
                ranked_count(teams@, rankings@, matches@, oprs.oprs@) <= a < r.data.team_stats@.len()
                    ==> (#[trigger] r.data.team_stats@[a]).rank == 0,
            forall|t: int| 0 <= t < teams@.len() ==> #[trigger] lists_team(r.data.team_stats@, teams@[t].key@),
            rankings@.len() == 0 ==> forall|a: int, b: int|
                0 <= a < b < r.data.team_stats@.len()
                    ==> #[trigger] r.data.team_stats@[a].team_number <= #[trigger] r.data.team_stats@[b].team_number,
    {
        let team_stats = build_team_list(&teams, &rankings, &matches, &oprs);
        App {
            data: AppData { event, teams, rankings, matches, oprs, team_stats },
            current_view: View::TeamList { selected_index: 0, search_query: String::new(), searching: false },
            view_history: Vec::new(),
            test_mode,
        }
    }

    /// Opens a screen, remembering the current one.
    pub fn navigate_to(&mut self, view: View)
        ensures
            screens(*final(self)) == opened(screens(*old(self)), view),
            screen_models(*final(self)) == open_screen(screen_models(*old(self)), view.model()),
            final(self).data == old(self).data,
            final(self).test_mode == old(self).test_mode,
    {
        let old_view = self.current_view.duplicate();
        self.view_history.push(old_view);
        self.current_view = view;
        assert(self.view_history@.map_values(|v: View| v.model()) =~= old(self).view_history@.map_values(|v: View| v.model()).push(old(self).current_view.model()));
    }

    /// Returns to the last remembered screen, if there is one.
    pub fn navigate_back(&mut self)
        ensures
            screens(*final(self)) == went_back(screens(*old(self))),
            screen_models(*final(self)) == back_screen(screen_models(*old(self))),
            final(self).data == old(self).data,
            final(self).test_mode == old(self).test_mode,
    {
        if let Some(prev_view) = self.view_history.pop() {
            self.current_view = prev_view;
            assert(self.view_history@.map_values(|v: View| v.model()) =~= old(self).view_history@.map_values(|v: View| v.model()).drop_last());
        }
    }

    /// Returns to the most recent team list, dropping the screens
    /// remembered after it; without one, returns to the last remembered
    /// screen.
    pub fn navigate_back_to_team_list(&mut self)
        ensures
            screen_models(*final(self)) == back_to_list_screen(screen_models(*old(self))),
            final(self).data == old(self).data,
            final(self).test_mode == old(self).test_mode,
    {
        let ghost models = self.view_history@.map_values(|v: View| v.model());
        let mut k = self.view_history.len();
        let mut found = false;
        assert(models.take(k as int) =~= models);
        while k > 0
            invariant_except_break
                !found,
            invariant
                k <= self.view_history@.len(),
                self.view_history == old(self).view_history,
                self.current_view == old(self).current_view,
                self.data == old(self).data,
                self.test_mode == old(self).test_mode,
                models == self.view_history@.map_values(|v: View| v.model()),
                last_team_list(models) == last_team_list(models.take(k as int)),
            ensures
                found ==> k > 0 && last_team_list(models) == k - 1,
                !found ==> k == 0,
            decreases k,
        {
            if let View::TeamList { .. } = self.view_history[k - 1] {
                assert(models[k - 1] == self.view_history@[k - 1].model());
                assert(models.take(k as int).last() == models[k - 1]);
                assert(models.take(k as int).last() is TeamList);
                assert(models.take(k as int).len() == k);
                assert(last_team_list(models.take(k as int)) == k - 1);
                found = true;
                break;
            }
            assert(models.take(k as int).drop_last() =~= models.take(k - 1));
            k = k - 1;
        }
        if found {
            while self.view_history.len() > k
                invariant
                    k <= self.view_history@.len(),
                    self.view_history@.len() <= old(self).view_history@.len(),
                    self.view_history@ =~= old(self).view_history@.take(self.view_history@.len() as int),
                    self.current_view == old(self).current_view,
                    self.data == old(self).data,
                    self.test_mode == old(self).test_mode,
                decreases self.view_history@.len(),
            {
                let ghost before = self.view_history@;
                self.view_history.pop();
                assert(self.view_history@ =~= old(self).view_history@.take(self.view_history@.len() as int)) by {
                    assert(self.view_history@ =~= before.drop_last());
                    assert(before.len() <= old(self).view_history@.len());
                    assert(before.drop_last() =~= old(self).view_history@.take(before.len() - 1));
                }
            }
            if let Some(view) = self.view_history.pop() {
                self.current_view = view;
            }
            assert(self.view_history@.map_values(|v: View| v.model()) =~= models.take(k - 1));
        } else {
            assert(models.take(0) =~= Seq::<ScreenModel>::empty());
            self.navigate_back();
        }
    }

    /// The matches of a team in chronological order.
    pub fn get_team_matches(&self, team_key: &str) -> (r: Vec<Match>)
        ensures
            same_matches(r@, team_schedule(self.data.matches@, team_key@)),
            r@.len() == matches_of(self.data.matches@, team_key@).len(),
            forall|i: int| 0 <= i < r@.len() ==> team_in_match(team_key@, #[trigger] r@[i]),
            forall|a: int, b: int| 0 <= a < b < r@.len() ==> schedule_key(#[trigger] r@[a]) <= schedule_key(#[trigger] r@[b]),
    {
        let matches = &self.data.matches;
        let ghost pred = |m: Match| team_in_match(team_key@, m);
        let mut mine: Vec<Match> = Vec::new();
        let mut keys: Vec<i64> = Vec::new();
        for i in 0..matches.len()
            invariant
                pred == (|m: Match| team_in_match(team_key@, m)),
                same_matches(mine@, matches@.take(i as int).filter(pred)),
                keys@ =~= matches@.take(i as int).filter(pred).map_values(|m: Match| schedule_key(m)),
        {
            proof {
                reveal_with_fuel(Seq::filter, 1);
                assert(matches@.take(i + 1).drop_last() =~= matches@.take(i as int));
            }
            let m = &matches[i];
            if team_is_in_match(team_key, m) {
                let key = match m.actual_time {
                    Some(t) => t,
                    None => match m.predicted_time {
                        Some(t) => t,
                        None => match m.time {
                            Some(t) => t,
                            None => i64::MAX,
                        },
                    },
                };
                keys.push(key);
                mine.push(m.duplicate());
            }
        }
        let ghost spec_mine = matches@.filter(pred);
        proof {
            assert(matches@.take(matches@.len() as int) =~= matches@);
        }
        let order = stable_order(&keys);
        let n = order.len();
        let mut out: Vec<Match> = Vec::new();
        for k in 0..n
            invariant
                n == order@.len(),
                is_stable_order(order@, keys@),
                keys@.len() == mine@.len(),
                same_matches(mine@, spec_mine),
                same_matches(out@, arrange(spec_mine, order@).take(k as int)),
        {
            let m = mine[order[k]].duplicate();
            out.push(m);
        }
        proof {
            assert(arrange(spec_mine, order@).take(n as int) =~= arrange(spec_mine, order@));
            lemma_stable_sorted_by_order(spec_mine, keys@, order@);
            assert forall|i: int| 0 <= i < out@.len() implies team_in_match(team_key@, #[trigger] out@[i]) by {
                let j = order@[i] as int;
                matches@.lemma_filter_pred(pred, j);
                assert(same_match(out@[i], spec_mine[j]));
                assert(out@[i].alliances.blue.team_keys@ == spec_mine[j].alliances.blue.team_keys@);
                assert(out@[i].alliances.red.team_keys@ == spec_mine[j].alliances.red.team_keys@);
                assert(pred(spec_mine[j]));
                if crate::stats::in_alliance(team_key@, spec_mine[j].alliances.blue) {
                    let w = choose|w: int| 0 <= w < spec_mine[j].alliances.blue.team_keys@.len() && (#[trigger] spec_mine[j].alliances.blue.team_keys@[w])@ == team_key@;
                    assert(out@[i].alliances.blue.team_keys@[w] == spec_mine[j].alliances.blue.team_keys@[w]);
                } else {
                    let w = choose|w: int| 0 <= w < spec_mine[j].alliances.red.team_keys@.len() && (#[trigger] spec_mine[j].alliances.red.team_keys@[w])@ == team_key@;
                    assert(out@[i].alliances.red.team_keys@[w] == spec_mine[j].alliances.red.team_keys@[w]);
                }
            }
            assert forall|a: int, b: int| 0 <= a < b < out@.len() implies schedule_key(#[trigger] out@[a]) <= schedule_key(#[trigger] out@[b]) by {
                assert(crate::sorting::stands_before(keys@, order@[a] as int, order@[b] as int));
                assert(same_match(out@[a], spec_mine[order@[a] as int]));
                assert(same_match(out@[b], spec_mine[order@[b] as int]));
            }
        }
        out
    }

    /// The match with the given key.
    pub fn get_match(&self, match_key: &str) -> (r: Option<&Match>)
        ensures
            match r {
                Some(m) => {
                    let i = match_position(self.data.matches@, match_key@);
                    0 <= i < self.data.matches@.len() && *m == self.data.matches@[i]
                },
                None => match_position(self.data.matches@, match_key@) < 0,
            },
    {
        match find_match(self.data.matches.as_slice(), match_key) {
            Some(i) => Some(&self.data.matches[i]),
            None => None,
        }
    }

    /// The statistics of the team with the given key.
    pub fn get_team_stats(&self, team_key: &str) -> (r: Option<&TeamStats>)
        ensures
            match r {
                Some(s) => {
                    let i = stats_position(self.data.team_stats@, team_key@);
                    0 <= i < self.data.team_stats@.len() && *s == self.data.team_stats@[i]
                },
                None => stats_position(self.data.team_stats@, team_key@) < 0,
            },
    {
        match find_stats(self.data.team_stats.as_slice(), team_key) {
            Some(i) => Some(&self.data.team_stats[i]),
            None => None,
        }
    }

    /// The team with the given key.
    pub fn get_team(&self, team_key: &str) -> (r: Option<&Team>)
        ensures
            match r {
                Some(t) => {
                    let i = team_position(self.data.teams@, team_key@);
                    0 <= i < self.data.teams@.len() && *t == self.data.teams@[i]
                },
                None => team_position(self.data.teams@, team_key@) < 0,
            },
    {
        match find_team(self.data.teams.as_slice(), team_key) {
            Some(i) => Some(&self.data.teams[i]),
            None => None,
        }
    }
}

fn find_match(matches: &[Match], key: &str) -> (r: Option<usize>)
    ensures
        match r {
            Some(i) => i as int == match_position(matches@, key@) && i < matches@.len(),
            None => match_position(matches@, key@) < 0,
        },
{
    let ghost pred = match_has_key(key@);
    for i in 0..matches.len()
        invariant
            pred == match_has_key(key@),
            forall|j: int| 0 <= j < i ==> !pred(#[trigger] matches@[j]),
    {
        if str_eq(matches[i].key.as_str(), key) {
            proof {
                lemma_first_index_found(matches@, pred, i as int);
            }
            return Some(i);
        }
    }
    proof {
        lemma_first_index_absent(matches@, pred);
    }
    None
}

fn find_stats(stats: &[TeamStats], key: &str) -> (r: Option<usize>)
    ensures
        match r {
            Some(i) => i as int == stats_position(stats@, key@) && i < stats@.len(),
            None => stats_position(stats@, key@) < 0,
        },
{
    let ghost pred = stats_have_key(key@);
    for i in 0..stats.len()
        invariant
            pred == stats_have_key(key@),
            forall|j: int| 0 <= j < i ==> !pred(#[trigger] stats@[j]),
    {
        if str_eq(stats[i].team_key.as_str(), key) {
            proof {
                lemma_first_index_found(stats@, pred, i as int);
            }
            return Some(i);
        }
    }
    proof {
        lemma_first_index_absent(stats@, pred);
    }
    None
}

} // verus!
