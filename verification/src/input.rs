//! What each key does on each screen.
//!
//! The key handlers decide the next screen state and, where the decision
//! needs outside work (quitting, reloading the data, switching to another
//! event), return it as an outcome for the caller to carry out.

use vstd::prelude::*;
use crate::app::{
    App, ScreenModel, View, back_screen, back_to_list_screen, match_position, open_screen, replace_screen, screen_models,
    team_schedule,
};
use crate::models::Event;
use crate::search::{first_index, lemma_first_index_absent, lemma_first_index_found};
use crate::sorting::{
    arrange, char_order_le, holds_index, is_stable_order, lemma_stable_sorted_meaning, lemma_string_key_order, stands_before,
    lemma_stable_sorted_by_order, stable_order, stable_sorted};
use crate::stats::TeamStats;
use crate::text::{int_text, is_digit, parse_i32, parse_i32_text, str_eq, text_of};
use vstd::view::View as _;

verus! {

/// A key press, as far as the screens tell keys apart.
#[derive(Debug, Clone, Copy)]
pub enum Key {
    Char(char),
    Enter,
    Esc,
    Backspace,
    Up,
    Down,
    Other,
}

/// What the caller has to do after a key press.
#[derive(Debug)]
pub enum KeyOutcome {
    /// Nothing beyond the new screen state.
    Continue,
    /// Leave the application.
    Quit,
    /// Load the data of the current event again.
    Refresh,
    /// Make the given event the current one and load its data.
    SwitchEvent { event_key: String, event_name: String },
}

/// The content of a `KeyOutcome`.
pub enum OutcomeModel {
    Continue,
    Quit,
    Refresh,
    SwitchEvent { event_key: Seq<char>, event_name: Seq<char> },
}

impl KeyOutcome {
    /// The content of the outcome.
    pub open spec fn model(&self) -> OutcomeModel {
        match self {
            KeyOutcome::Continue => OutcomeModel::Continue,
            KeyOutcome::Quit => OutcomeModel::Quit,
            KeyOutcome::Refresh => OutcomeModel::Refresh,
            KeyOutcome::SwitchEvent { event_key, event_name } => OutcomeModel::SwitchEvent {
                event_key: event_key@,
                event_name: event_name@,
            },
        }
    }
}

/// The key moves the selection down: the down arrow or `j`.
pub open spec fn is_down(key: Key) -> bool {
    key == Key::Down || key == Key::Char('j')
}

/// The key moves the selection up: the up arrow or `k`.
pub open spec fn is_up(key: Key) -> bool {
    key == Key::Up || key == Key::Char('k')
}

/// The key leaves a detail screen: escape or backspace.
pub open spec fn is_leave(key: Key) -> bool {
    key == Key::Esc || key == Key::Backspace
}

/// One step down, staying at or above 0 and at most at `last`.
pub open spec fn step_down(selected: usize, last: int) -> usize {
    if selected + 1 < last {
        (selected + 1) as usize
    } else {
        last as usize
    }
}

/// One step up, stopping at 0.
pub open spec fn step_up(selected: usize) -> usize {
    if selected > 0 {
        (selected - 1) as usize
    } else {
        0
    }
}

/// The team list, not searching, with an empty query.
pub open spec fn browsing_list(selected: usize) -> ScreenModel {
    ScreenModel::TeamList { selected_index: selected, search_query: Seq::empty(), searching: false }
}

/// The last position of a list of `len` items (0 for an empty list).
pub open spec fn last_position(len: nat) -> int {
    if len > 0 {
        len - 1
    } else {
        0
    }
}

/// The team list screen: typing a team number in search mode, or moving,
/// opening a team, starting a search or opening the competition browser.
pub open spec fn team_list_step(
    state: (ScreenModel, Seq<ScreenModel>),
    stats: Seq<TeamStats>,
    selected: usize,
    query: Seq<char>,
    searching: bool,
    key: Key,
) -> (ScreenModel, Seq<ScreenModel>) {
    if searching {
        match key {
            Key::Esc => replace_screen(state, browsing_list(selected)),
            Key::Enter => if query.len() == 0 {
                replace_screen(state, browsing_list(selected))
            } else {
                match parse_i32_text(query) {
                    Some(n) => {
                        let i = first_index(stats, |s: TeamStats| s.team_number == n);
                        if i >= 0 {
                            replace_screen(state, browsing_list(i as usize))
                        } else {
                            replace_screen(state, browsing_list(selected))
                        }
                    },
                    None => replace_screen(state, browsing_list(selected)),
                }
            },
            Key::Backspace => replace_screen(
                state,
                ScreenModel::TeamList {
                    selected_index: selected,
                    search_query: if query.len() > 0 {
                        query.drop_last()
                    } else {
                        query
                    },
                    searching: true,
                },
            ),
            Key::Char(c) => if is_digit(c) {
                replace_screen(
                    state,
                    ScreenModel::TeamList { selected_index: selected, search_query: query.push(c), searching: true },
                )
            } else {
                state
            },
            _ => state,
        }
    } else if key == Key::Char('p') {
        open_screen(state, ScreenModel::CompetitionBrowser { selected_index: 0 })
    } else if key == Key::Char('/') {
        replace_screen(state, ScreenModel::TeamList { selected_index: selected, search_query: Seq::empty(), searching: true })
    } else if is_down(key) {
        if stats.len() > 0 {
            replace_screen(state, browsing_list(step_down(selected, stats.len() - 1)))
        } else {
            state
        }
    } else if is_up(key) {
        replace_screen(state, browsing_list(step_up(selected)))
    } else if key == Key::Enter {
        if selected < stats.len() {
            open_screen(state, ScreenModel::TeamDetail { team_key: stats[selected as int].team_key@, selected_match_index: 0 })
        } else {
            state
        }
    } else {
        state
    }
}

/// The team detail screen: moving through the team's schedule, opening a
/// match, or going back to the team list.
pub open spec fn team_detail_step(
    state: (ScreenModel, Seq<ScreenModel>),
    schedule: Seq<crate::models::Match>,
    team_key: Seq<char>,
    selected: usize,
    key: Key,
) -> (ScreenModel, Seq<ScreenModel>) {
    if is_leave(key) {
        back_to_list_screen(state)
    } else if is_down(key) {
        replace_screen(state, ScreenModel::TeamDetail {
            team_key,
            selected_match_index: step_down(selected, last_position(schedule.len())),
        })
    } else if is_up(key) {
        replace_screen(state, ScreenModel::TeamDetail { team_key, selected_match_index: step_up(selected) })
    } else if key == Key::Enter {
        if selected < schedule.len() {
            open_screen(state, ScreenModel::MatchDetail { match_key: schedule[selected as int].key@, selected_team_index: 0 })
        } else {
            state
        }
    } else {
        state
    }
}

/// The match detail screen: moving through the six team slots, opening a
/// team, or going back.
pub open spec fn match_detail_step(
    state: (ScreenModel, Seq<ScreenModel>),
    matches: Seq<crate::models::Match>,
    match_key: Seq<char>,
    selected: usize,
    key: Key,
) -> (ScreenModel, Seq<ScreenModel>) {
    if is_leave(key) {
        back_screen(state)
    } else if is_down(key) {
        replace_screen(state, ScreenModel::MatchDetail { match_key, selected_team_index: step_down(selected, 5) })
    } else if is_up(key) {
        replace_screen(state, ScreenModel::MatchDetail { match_key, selected_team_index: step_up(selected) })
    } else if key == Key::Enter {
        let i = match_position(matches, match_key);
        if i >= 0 {
            let m = matches[i];
            let all = m.alliances.blue.team_keys@ + m.alliances.red.team_keys@;
            if selected < all.len() {
                open_screen(state, ScreenModel::TeamDetail { team_key: all[selected as int]@, selected_match_index: 0 })
            } else {
                state
            }
        } else {
            state
        }
    } else {
        state
    }
}

/// Positions of the regional events (event type 1) among the first `n` events.
pub open spec fn regional_prefix(events: Seq<Event>, n: nat) -> Seq<usize>
    decreases n,
{
    if n == 0 {
        Seq::empty()
    } else {
        let prev = regional_prefix(events, (n - 1) as nat);
        if events[n - 1].event_type == 1 {
            prev.push((n - 1) as usize)
        } else {
            prev
        }
    }
}

proof fn lemma_regional_prefix(events: Seq<Event>, n: nat)
    requires
        n <= events.len(),
        events.len() <= usize::MAX,
    ensures
        ({
            let r = regional_prefix(events, n);
            &&& r.len() <= n
            &&& forall|k: int| 0 <= k < r.len() ==> #[trigger] r[k] < n && events[r[k] as int].event_type == 1
            &&& forall|k: int, l: int| 0 <= k < l < r.len() ==> #[trigger] r[k] < #[trigger] r[l]
            &&& forall|i: int| 0 <= i < n && #[trigger] events[i].event_type == 1 ==> exists|k: int| 0 <= k < r.len() && r[k] == i
        }),
    decreases n,
{
    if n > 0 {
        lemma_regional_prefix(events, (n - 1) as nat);
        let prev = regional_prefix(events, (n - 1) as nat);
        let r = regional_prefix(events, n);
        if events[n - 1].event_type == 1 {
            assert forall|i: int| 0 <= i < n && #[trigger] events[i].event_type == 1 implies exists|k: int| 0 <= k < r.len() && r[k] == i by {
                if i == n - 1 {
                    assert(r[prev.len() as int] == i);
                } else {
                    let k = choose|k: int| 0 <= k < prev.len() && prev[k] == i;
                    assert(r[k] == i);
                }
            }
        }
    }
}

/// Positions of the regional events, sorted by start date (ties in list order).
pub open spec fn regional_order(events: Seq<Event>) -> Seq<usize> {
    let regional = regional_prefix(events, events.len());
    stable_sorted(regional, regional.map_values(|i: usize| events[i as int].start_date))
}

/// The competition browser: moving through the regional events, choosing
/// one, or going back. Choosing the current event goes back; choosing
/// another returns to the team list and asks to switch to it.
pub open spec fn browser_step(
    state: (ScreenModel, Seq<ScreenModel>),
    events: Seq<Event>,
    current_event_key: Seq<char>,
    selected: usize,
    key: Key,
) -> ((ScreenModel, Seq<ScreenModel>), OutcomeModel) {
    let regional = regional_order(events);
    if is_leave(key) {
        (back_screen(state), OutcomeModel::Continue)
    } else if is_down(key) {
        (
            replace_screen(state, ScreenModel::CompetitionBrowser { selected_index: step_down(selected, last_position(regional.len())) }),
            OutcomeModel::Continue,
        )
    } else if is_up(key) {
        (replace_screen(state, ScreenModel::CompetitionBrowser { selected_index: step_up(selected) }), OutcomeModel::Continue)
    } else if key == Key::Enter {
        if selected < regional.len() {
            let e = events[regional[selected as int] as int];
            if e.key@ != current_event_key {
                (
                    replace_screen(state, browsing_list(0)),
                    OutcomeModel::SwitchEvent { event_key: e.key@, event_name: e.name@ },
                )
            } else {
                (back_screen(state), OutcomeModel::Continue)
            }
        } else {
            (state, OutcomeModel::Continue)
        }
    } else {
        (state, OutcomeModel::Continue)
    }
}

/// The competition browser lists every regional event (event type 1) once
/// and no other event, in order of start date: the dates never decrease,
/// compared character by character as `str` compares them, and events with
/// the same date keep their order in the event list.
pub proof fn lemma_regional_order(events: Seq<Event>)
    requires
        events.len() <= usize::MAX,
    ensures
        ({
            let r = regional_order(events);
            &&& forall|k: int| 0 <= k < r.len() ==> #[trigger] r[k] < events.len() && events[r[k] as int].event_type == 1
            &&& forall|i: int| 0 <= i < events.len() && #[trigger] events[i].event_type == 1 ==> exists|k: int| 0 <= k < r.len() && r[k] == i
            &&& forall|k: int, l: int| 0 <= k < l < r.len() ==> #[trigger] r[k] != #[trigger] r[l] && char_order_le(
                events[r[k] as int].start_date@,
                events[r[l] as int].start_date@,
            ) && (events[r[k] as int].start_date@ == events[r[l] as int].start_date@ ==> r[k] < r[l])
        }),
{
    let regional = regional_prefix(events, events.len());
    let keys = regional.map_values(|i: usize| events[i as int].start_date);
    lemma_regional_prefix(events, events.len());
    lemma_stable_sorted_meaning(regional, keys);
    let o = choose|o: Seq<usize>| is_stable_order(o, keys);
    let r = regional_order(events);
    assert(r == arrange(regional, o));
    assert forall|k: int| 0 <= k < r.len() implies #[trigger] r[k] < events.len() && events[r[k] as int].event_type == 1 by {
        assert(r[k] == regional[o[k] as int]);
    }
    assert forall|i: int| 0 <= i < events.len() && #[trigger] events[i].event_type == 1 implies exists|k: int| 0 <= k < r.len() && r[k] == i by {
        let j = choose|j: int| 0 <= j < regional.len() && regional[j] == i;
        assert(holds_index(o, j));
        let k = choose|k: int| 0 <= k < o.len() && o[k] == j;
        assert(r[k] == i);
    }
    assert forall|k: int, l: int| 0 <= k < l < r.len() implies #[trigger] r[k] != #[trigger] r[l] && char_order_le(
        events[r[k] as int].start_date@,
        events[r[l] as int].start_date@,
    ) && (events[r[k] as int].start_date@ == events[r[l] as int].start_date@ ==> r[k] < r[l]) by {
        let a = o[k] as int;
        let b = o[l] as int;
        assert(stands_before(keys, a, b));
        assert(r[k] == regional[a] && r[l] == regional[b]);
        assert(keys[a] == events[regional[a] as int].start_date);
        assert(keys[b] == events[regional[b] as int].start_date);
        lemma_string_key_order(keys[a], keys[b]);
        lemma_string_key_order(keys[b], keys[a]);
        crate::sorting::lemma_lex_le_refl(keys[a]@);
        if a == b {
            assert(holds_index(o, a));
        }
        assert(a != b) by {
            crate::sorting::lemma_stable_order_distinct(o, keys, k, l);
        }
    }
}

/// A key press anywhere: `q` quits and `r` reloads on every screen; other
/// keys go to the current screen.
pub open spec fn key_step(
    app: App,
    events: Seq<Event>,
    current_event_key: Seq<char>,
    key: Key,
) -> ((ScreenModel, Seq<ScreenModel>), OutcomeModel) {
    let state = screen_models(app);
    if key == Key::Char('q') {
        (state, OutcomeModel::Quit)
    } else if key == Key::Char('r') {
        (state, OutcomeModel::Refresh)
    } else {
        match state.0 {
            ScreenModel::TeamList { selected_index, search_query, searching } => (
                team_list_step(state, app.data.team_stats@, selected_index, search_query, searching, key),
                OutcomeModel::Continue,
            ),
            ScreenModel::TeamDetail { team_key, selected_match_index } => (
                team_detail_step(state, team_schedule(app.data.matches@, team_key), team_key, selected_match_index, key),
                OutcomeModel::Continue,
            ),
            ScreenModel::MatchDetail { match_key, selected_team_index } => (
                match_detail_step(state, app.data.matches@, match_key, selected_team_index, key),
                OutcomeModel::Continue,
            ),
            ScreenModel::CompetitionBrowser { selected_index } => browser_step(
                state,
                events,
                current_event_key,
                selected_index,
                key,
            ),
        }
    }
}

/// Typing the number of a listed team and pressing Enter selects the first
/// listed team with that number and leaves search mode.
pub proof fn lemma_search_selects_team(
    state: (ScreenModel, Seq<ScreenModel>),
    stats: Seq<TeamStats>,
    selected: usize,
    i: int,
)
    requires
        0 <= i < stats.len(),
        forall|j: int| 0 <= j < i ==> (#[trigger] stats[j]).team_number != stats[i].team_number,
    ensures
        team_list_step(state, stats, selected, int_text(stats[i].team_number as int), true, Key::Enter)
            == replace_screen(state, browsing_list(i as usize)),
{
    let n = stats[i].team_number;
    crate::text::lemma_parse_int_text(n);
    crate::search::lemma_first_index_found(stats, |s: TeamStats| s.team_number == n, i);
    crate::text::lemma_int_text_nonempty(n as int);
}

/// Escape or backspace on a team's screen shows the team list again
/// whenever a team list was opened before it.
pub proof fn lemma_team_detail_returns_to_list(
    state: (ScreenModel, Seq<ScreenModel>),
    schedule: Seq<crate::models::Match>,
    team_key: Seq<char>,
    selected: usize,
    key: Key,
    j: int,
)
    requires
        is_leave(key),
        0 <= j < state.1.len(),
        state.1[j] is TeamList,
    ensures
        team_detail_step(state, schedule, team_key, selected, key).0 is TeamList,
{
    crate::app::lemma_back_to_list_shows_list(state, j);
}

/// `q` quits and `r` reloads on every screen, leaving the screens as they
/// are.
pub proof fn lemma_quit_and_reload(app: App, events: Seq<Event>, current_event_key: Seq<char>)
    ensures
        key_step(app, events, current_event_key, Key::Char('q')) == (screen_models(app), OutcomeModel::Quit),
        key_step(app, events, current_event_key, Key::Char('r')) == (screen_models(app), OutcomeModel::Refresh),
{
}

/// On the team list in search mode, a digit is appended to the query,
/// backspace removes the query's last character, escape leaves search
/// mode keeping the selection, and other characters change nothing; out of
/// search mode, `/` starts a search with an empty query and `p` opens the
/// competition browser on its first event.
pub proof fn lemma_team_list_keys(
    state: (ScreenModel, Seq<ScreenModel>),
    stats: Seq<TeamStats>,
    selected: usize,
    query: Seq<char>,
    c: char,
)
    ensures
        48 <= (c as int) <= 57 ==> team_list_step(state, stats, selected, query, true, Key::Char(c)) == (
            ScreenModel::TeamList { selected_index: selected, search_query: query.push(c), searching: true },
            state.1,
        ),
        !(48 <= (c as int) <= 57) ==> team_list_step(state, stats, selected, query, true, Key::Char(c)) == state,
        query.len() > 0 ==> team_list_step(state, stats, selected, query, true, Key::Backspace) == (
            ScreenModel::TeamList {
                selected_index: selected,
                search_query: query.subrange(0, query.len() - 1),
                searching: true,
            },
            state.1,
        ),
        team_list_step(state, stats, selected, query, true, Key::Esc) == (
            ScreenModel::TeamList { selected_index: selected, search_query: Seq::empty(), searching: false },
            state.1,
        ),
        team_list_step(state, stats, selected, query, false, Key::Char('/')) == (
            ScreenModel::TeamList { selected_index: selected, search_query: Seq::empty(), searching: true },
            state.1,
        ),
        team_list_step(state, stats, selected, query, false, Key::Char('p')) == (
            ScreenModel::CompetitionBrowser { selected_index: 0 },
            state.1.push(state.0),
        ),
{
    assert(query.drop_last() =~= query.subrange(0, query.len() - 1));
}

/// Enter on a team's screen opens the selected match of its schedule,
/// remembering the team's screen; Enter on a match's screen opens the
/// selected team slot, counting the blue teams first and then the red ones.
pub proof fn lemma_enter_opens_selection(
    state: (ScreenModel, Seq<ScreenModel>),
    matches: Seq<crate::models::Match>,
    schedule: Seq<crate::models::Match>,
    team_key: Seq<char>,
    match_key: Seq<char>,
    selected: usize,
    i: int,
)
    ensures
        selected < schedule.len() ==> team_detail_step(state, schedule, team_key, selected, Key::Enter) == (
            ScreenModel::MatchDetail { match_key: schedule[selected as int].key@, selected_team_index: 0 },
            state.1.push(state.0),
        ),
        ({
            let m = matches[i];
            let nb = m.alliances.blue.team_keys@.len();
            let nr = m.alliances.red.team_keys@.len();
            0 <= i < matches.len() && m.key@ == match_key && (forall|j: int|
                0 <= j < i ==> (#[trigger] matches[j]).key@ != match_key) ==> {
                &&& selected < nb ==> match_detail_step(state, matches, match_key, selected, Key::Enter) == (
                    ScreenModel::TeamDetail { team_key: m.alliances.blue.team_keys@[selected as int]@, selected_match_index: 0 },
                    state.1.push(state.0),
                )
                &&& nb <= selected < nb + nr ==> match_detail_step(state, matches, match_key, selected, Key::Enter) == (
                    ScreenModel::TeamDetail {
                        team_key: m.alliances.red.team_keys@[selected - nb]@,
                        selected_match_index: 0,
                    },
                    state.1.push(state.0),
                )
                &&& selected >= nb + nr ==> match_detail_step(state, matches, match_key, selected, Key::Enter) == state
            }
        }),
{
    if 0 <= i < matches.len() && matches[i].key@ == match_key && (forall|j: int|
        0 <= j < i ==> (#[trigger] matches[j]).key@ != match_key) {
        crate::search::lemma_first_index_found(matches, crate::app::match_has_key(match_key), i);
    }
}

/// Choosing an event in the competition browser other than the current one
/// returns to the team list at its top and asks to switch to that event;
/// choosing the current event goes back.
pub proof fn lemma_browser_choice(
    state: (ScreenModel, Seq<ScreenModel>),
    events: Seq<Event>,
    current_event_key: Seq<char>,
    selected: usize,
)
    ensures
        ({
            let r = regional_order(events);
            selected < r.len() ==> {
                let e = events[r[selected as int] as int];
                &&& e.key@ != current_event_key ==> browser_step(state, events, current_event_key, selected, Key::Enter) == (
                    (ScreenModel::TeamList { selected_index: 0, search_query: Seq::empty(), searching: false }, state.1),
                    OutcomeModel::SwitchEvent { event_key: e.key@, event_name: e.name@ },
                )
                &&& e.key@ == current_event_key ==> browser_step(state, events, current_event_key, selected, Key::Enter)
                    == (back_screen(state), OutcomeModel::Continue)
            }
        }),
{
}

/// Moving down goes one step and stops at the last item; moving up goes one
/// step and stops at the first.
pub proof fn lemma_steps_stay_in_bounds(selected: usize, last: usize)
    ensures
        step_down(selected, last as int) <= last,
        selected < last ==> step_down(selected, last as int) == selected + 1,
        selected >= last ==> step_down(selected, last as int) == last,
        step_up(selected) <= selected,
        selected > 0 ==> step_up(selected) == selected - 1,
{
}

fn is_down_key(key: Key) -> (r: bool)
    ensures
        r == is_down(key),
{
    match key {
        Key::Down => true,
        Key::Char(c) => c == 'j',
        _ => false,
    }
}

fn is_up_key(key: Key) -> (r: bool)
    ensures
        r == is_up(key),
{
    match key {
        Key::Up => true,
        Key::Char(c) => c == 'k',
        _ => false,
    }
}

fn is_leave_key(key: Key) -> (r: bool)
    ensures
        r == is_leave(key),
{
    match key {
        Key::Esc => true,
        Key::Backspace => true,
        _ => false,
    }
}

fn down_from(selected: usize, last: usize) -> (r: usize)
    ensures
        r == step_down(selected, last as int),
{
    if selected < last && selected + 1 < last {
        selected + 1
    } else {
        last
    }
}

fn up_from(selected: usize) -> (r: usize)
    ensures
        r == step_up(selected),
{
    if selected > 0 {
        selected - 1
    } else {
        0
    }
}

fn last_of(len: usize) -> (r: usize)
    ensures
        r as int == last_position(len as nat),
{
    if len > 0 {
        len - 1
    } else {
        0
    }
}

fn browsing(selected: usize) -> (r: View)
    ensures
        r.model() == browsing_list(selected),
{
    View::TeamList { selected_index: selected, search_query: String::new(), searching: false }
}

fn position_of_number(stats: &Vec<TeamStats>, number: i32) -> (r: Option<usize>)
    ensures
        match r {
            Some(i) => i as int == first_index(stats@, |s: TeamStats| s.team_number == number),
            None => first_index(stats@, |s: TeamStats| s.team_number == number) < 0,
        },
{
    let ghost pred = |s: TeamStats| s.team_number == number;
    for i in 0..stats.len()
        invariant
            pred == (|s: TeamStats| s.team_number == number),
            forall|j: int| 0 <= j < i ==> !pred(#[trigger] stats@[j]),
    {
        if stats[i].team_number == number {
            proof {
                lemma_first_index_found(stats@, pred, i as int);
            }
            return Some(i);
        }
    }
    proof {
        lemma_first_index_absent(stats@, pred);
    }
    None
}

/// Handles a key on the team list screen.
pub fn handle_team_list_input(
    app: &mut App,
    key: Key,
    selected_index: usize,
    search_query: &str,
    searching: bool,
)
    ensures
        screen_models(*final(app)) == team_list_step(
            screen_models(*old(app)),
            old(app).data.team_stats@,
            selected_index,
            search_query@,
            searching,
            key,
        ),
        final(app).data == old(app).data,
        final(app).test_mode == old(app).test_mode,
{
    let ghost state = screen_models(*app);
    if searching {
        match key {
            Key::Esc => {
                app.current_view = browsing(selected_index);
            },
            Key::Enter => {
                if search_query.unicode_len() > 0 {
                    match parse_i32(search_query) {
                        Some(team_number) => {
                            match position_of_number(&app.data.team_stats, team_number) {
                                Some(index) => {
                                    app.current_view = browsing(index);
                                },
                                None => {
                                    app.current_view = browsing(selected_index);
                                },
                            }
                        },
                        None => {
                            app.current_view = browsing(selected_index);
                        },
                    }
                } else {
                    app.current_view = browsing(selected_index);
                }
            },
            Key::Backspace => {
                let n = search_query.unicode_len();
                let new_query = if n > 0 {
                    text_of(search_query.substring_char(0, n - 1))
                } else {
                    text_of(search_query)
                };
                proof {
                    if n > 0 {
                        assert(search_query@.subrange(0, n - 1) =~= search_query@.drop_last());
                    }
                }
                app.current_view = View::TeamList { selected_index, search_query: new_query, searching: true };
            },
            Key::Char(c) => {
                let u = c as u32;
                if 48 <= u && u <= 57 {
                    let mut new_query = text_of(search_query);
                    crate::text::push_digit(&mut new_query, c);
                    app.current_view = View::TeamList { selected_index, search_query: new_query, searching: true };
                }
            },
            _ => {},
        }
    } else {
        match key {
            Key::Char('p') => {
                app.navigate_to(View::CompetitionBrowser { selected_index: 0 });
            },
            Key::Char('/') => {
                app.current_view = View::TeamList { selected_index, search_query: String::new(), searching: true };
            },
            Key::Enter => {
                if selected_index < app.data.team_stats.len() {
                    let team_key = text_of(app.data.team_stats[selected_index].team_key.as_str());
                    app.navigate_to(View::TeamDetail { team_key, selected_match_index: 0 });
                }
            },
            _ => {
                if is_down_key(key) {
                    let len = app.data.team_stats.len();
                    if len > 0 {
                        app.current_view = browsing(down_from(selected_index, len - 1));
                    }
                } else if is_up_key(key) {
                    app.current_view = browsing(up_from(selected_index));
                }
            },
        }
    }
}

/// Handles a key on the team detail screen.
pub fn handle_team_detail_input(app: &mut App, key: Key, team_key: &str, selected_match_index: usize)
    ensures
        screen_models(*final(app)) == team_detail_step(
            screen_models(*old(app)),
            team_schedule(old(app).data.matches@, team_key@),
            team_key@,
            selected_match_index,
            key,
        ),
        final(app).data == old(app).data,
        final(app).test_mode == old(app).test_mode,
{
    let matches = app.get_team_matches(team_key);
    let max_index = last_of(matches.len());
    if is_leave_key(key) {
        app.navigate_back_to_team_list();
    } else if is_down_key(key) {
        app.current_view = View::TeamDetail {
            team_key: text_of(team_key),
            selected_match_index: down_from(selected_match_index, max_index),
        };
    } else if is_up_key(key) {
        app.current_view = View::TeamDetail { team_key: text_of(team_key), selected_match_index: up_from(selected_match_index) };
    } else if let Key::Enter = key {
        if selected_match_index < matches.len() {
            let match_key = text_of(matches[selected_match_index].key.as_str());
            app.navigate_to(View::MatchDetail { match_key, selected_team_index: 0 });
        }
    }
}

/// Handles a key on the match detail screen.
pub fn handle_match_detail_input(app: &mut App, key: Key, match_key: &str, selected_team_index: usize)
    ensures
        screen_models(*final(app)) == match_detail_step(
            screen_models(*old(app)),
            old(app).data.matches@,
            match_key@,
            selected_team_index,
            key,
        ),
        final(app).data == old(app).data,
        final(app).test_mode == old(app).test_mode,
{
    if is_leave_key(key) {
        app.navigate_back();
    } else if is_down_key(key) {
        app.current_view = View::MatchDetail { match_key: text_of(match_key), selected_team_index: down_from(selected_team_index, 5) };
    } else if is_up_key(key) {
        app.current_view = View::MatchDetail { match_key: text_of(match_key), selected_team_index: up_from(selected_team_index) };
    } else if let Key::Enter = key {
        let chosen: Option<String> = match app.get_match(match_key) {
            Some(m) => {
                let blue = &m.alliances.blue.team_keys;
                let red = &m.alliances.red.team_keys;
                if selected_team_index < blue.len() {
                    Some(text_of(blue[selected_team_index].as_str()))
                } else if selected_team_index - blue.len() < red.len() {
                    Some(text_of(red[selected_team_index - blue.len()].as_str()))
                } else {
                    None
                }
            },
            None => None,
        };
        if let Some(team_key) = chosen {
            app.navigate_to(View::TeamDetail { team_key, selected_match_index: 0 });
        }
    }
}

/// Positions of the regional events (event type 1), sorted by start date
/// with ties in list order.
pub fn regional_events(events: &[Event]) -> (r: Vec<usize>)
    ensures
        r@ == regional_order(events@),
        forall|k: int| 0 <= k < r@.len() ==> #[trigger] r@[k] < events@.len(),
{
    let mut regional: Vec<usize> = Vec::new();
    let mut keys: Vec<String> = Vec::new();
    for i in 0..events.len()
        invariant
            regional@ == regional_prefix(events@, i as nat),
            keys@ == regional@.map_values(|j: usize| events@[j as int].start_date),
            forall|k: int| 0 <= k < regional@.len() ==> #[trigger] regional@[k] < i,
    {
        if events[i].event_type == 1 {
            keys.push(events[i].start_date.clone());
            regional.push(i);
            assert(keys@ =~= regional@.map_values(|j: usize| events@[j as int].start_date));
        }
    }
    let order = stable_order(&keys);
    let n = order.len();
    let mut out: Vec<usize> = Vec::new();
    for k in 0..n
        invariant
            n == order@.len(),
            is_stable_order(order@, keys@),
            keys@.len() == regional@.len(),
            forall|k: int| 0 <= k < regional@.len() ==> #[trigger] regional@[k] < events@.len(),
            out@ =~= arrange(regional@, order@).take(k as int),
    {
        out.push(regional[order[k]]);
        assert(arrange(regional@, order@).take(k + 1) =~= arrange(regional@, order@).take(k as int).push(regional@[order@[k as int] as int]));
    }
    proof {
        assert(arrange(regional@, order@).take(n as int) =~= arrange(regional@, order@));
        lemma_stable_sorted_by_order(regional@, keys@, order@);
    }
    out
}

/// Handles a key on the competition browser screen; choosing another event
/// returns the switch for the caller to carry out.
pub fn handle_competition_browser_input(
    app: &mut App,
    events: &[Event],
    current_event_key: &str,
    key: Key,
    selected_index: usize,
) -> (r: KeyOutcome)
    ensures
        (screen_models(*final(app)), r.model()) == browser_step(
            screen_models(*old(app)),
            events@,
            current_event_key@,
            selected_index,
            key,
        ),
        final(app).data == old(app).data,
        final(app).test_mode == old(app).test_mode,
{
    let regional = regional_events(events);
    let max_index = last_of(regional.len());
    if is_leave_key(key) {
        app.navigate_back();
        KeyOutcome::Continue
    } else if is_down_key(key) {
        app.current_view = View::CompetitionBrowser { selected_index: down_from(selected_index, max_index) };
        KeyOutcome::Continue
    } else if is_up_key(key) {
        app.current_view = View::CompetitionBrowser { selected_index: up_from(selected_index) };
        KeyOutcome::Continue
    } else if let Key::Enter = key {
        if selected_index < regional.len() {
            let e = &events[regional[selected_index]];
            if !str_eq(e.key.as_str(), current_event_key) {
                app.current_view = browsing(0);
                KeyOutcome::SwitchEvent { event_key: text_of(e.key.as_str()), event_name: text_of(e.name.as_str()) }
            } else {
                app.navigate_back();
                KeyOutcome::Continue
            }
        } else {
            KeyOutcome::Continue
        }
    } else {
        KeyOutcome::Continue
    }
}

impl App {
    /// Handles a key press: `q` and `r` everywhere, other keys on the
    /// current screen. `events` are the events the competition browser
    /// lists and `current_event_key` the event whose data is loaded.
    pub fn handle_key(&mut self, key: Key, events: &[Event], current_event_key: &str) -> (r: KeyOutcome)
        ensures
            (screen_models(*final(self)), r.model()) == key_step(*old(self), events@, current_event_key@, key),
            final(self).data == old(self).data,
            final(self).test_mode == old(self).test_mode,
    {
        if let Key::Char('q') = key {
            return KeyOutcome::Quit;
        }
        if let Key::Char('r') = key {
            return KeyOutcome::Refresh;
        }
        let view = self.current_view.duplicate();
        match view {
            View::TeamList { selected_index, search_query, searching } => {
                handle_team_list_input(self, key, selected_index, search_query.as_str(), searching);
                KeyOutcome::Continue
            },
            View::TeamDetail { team_key, selected_match_index } => {
                handle_team_detail_input(self, key, team_key.as_str(), selected_match_index);
                KeyOutcome::Continue
            },
            View::MatchDetail { match_key, selected_team_index } => {
                handle_match_detail_input(self, key, match_key.as_str(), selected_team_index);
                KeyOutcome::Continue
            },
            View::CompetitionBrowser { selected_index } => {
                handle_competition_browser_input(self, events, current_event_key, key, selected_index)
            },
        }
    }
}

} // verus!
