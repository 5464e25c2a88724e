//! The text the screens show: names, times, scores, results and labels.
//!
//! Local times are rendered by `chrono` in the machine's time zone; the
//! functions that render one state what holds whatever text came back, and
//! a companion function that takes the rendered time states the exact text.

use vstd::prelude::*;
use chrono::{Local, TimeZone};
use crate::app::App;
use crate::models::{Event, Match, MatchStatus, status_of};
use crate::stats::{TeamStats, team_position};
use vstd::utf8::{
    decode_utf8, encode_utf8, encode_utf8_decode_utf8, encode_utf8_valid_utf8, is_ascii_chars, is_ascii_chars_encode_utf8,
    is_char_boundary,
    is_char_boundary_iff_not_is_continuation_byte,
};
use crate::text::{int_text, parse_i32_text, pad_right_text, push_int, push_padded, str_eq, text_of};

verus! {

/// The earliest Unix timestamp that `chrono` turns into a date.
pub open spec fn earliest_timestamp() -> int {
    -8334601228800
}

/// The latest Unix timestamp that `chrono` turns into a date.
pub open spec fn latest_timestamp() -> int {
    8210266876799
}

/// A timestamp that `chrono` can render.
pub open spec fn renderable(t: i64) -> bool {
    earliest_timestamp() <= t <= latest_timestamp()
}

/// The long time format, as in "Sat, Mar 9, 2024 at 2:05 PM".
pub open spec fn long_time_pattern() -> Seq<char> {
    "%a, %b %-d, %Y at %-I:%M %p"@
}

/// The short time format, as in "Sat 2:05 PM".
pub open spec fn short_time_pattern() -> Seq<char> {
    "%a %-I:%M %p"@
}

/// The long time format.
pub fn long_pattern() -> (r: &'static str)
    ensures
        r@ == long_time_pattern(),
{
    "%a, %b %-d, %Y at %-I:%M %p"
}

/// The short time format.
pub fn short_pattern() -> (r: &'static str)
    ensures
        r@ == short_time_pattern(),
{
    "%a %-I:%M %p"
}

/// Renders a Unix timestamp in the local time zone with a strftime-like
/// pattern (`chrono`: `Local.timestamp_opt(t, 0).unwrap().format(p).to_string()`).
/// `timestamp_opt` gives a single date for every timestamp in the range
/// that `DateTime::from_timestamp` accepts and none outside it, where
/// `unwrap` would panic; the two patterns are valid, so `to_string` does not
/// panic. The text depends on the time zone that the system supplies, so
/// nothing is stated of it. Nothing here states either that the system's
/// time zone rules handle every date of that range: chrono panics where
/// they do not.
#[verifier::external_body]
fn local_time_text(timestamp: i64, pattern: &str) -> String
    requires
        renderable(timestamp),
        pattern@ == long_time_pattern() || pattern@ == short_time_pattern(),
{
    Local.timestamp_opt(timestamp, 0).unwrap().format(pattern).to_string()
}

/// The timestamp the match detail header shows: the actual time of a
/// completed match, the expected time of a scheduled one.
pub open spec fn header_timestamp(m: Match) -> Option<i64> {
    match status_of(m) {
        MatchStatus::Completed { .. } => m.actual_time,
        MatchStatus::Scheduled { time } => time,
    }
}

/// The timestamp the match detail header shows.
pub fn header_time(m: &Match) -> (r: Option<i64>)
    ensures
        r == header_timestamp(*m),
{
    match m.status() {
        MatchStatus::Completed { .. } => m.actual_time,
        MatchStatus::Scheduled { time } => time,
    }
}

/// The time line of the match detail header, with `local` the rendered
/// local time.
pub open spec fn time_info_text(m: Match, local: Seq<char>) -> Seq<char> {
    match status_of(m) {
        MatchStatus::Completed { .. } => if m.actual_time is Some {
            "Played: "@ + local
        } else {
            "Completed"@
        },
        MatchStatus::Scheduled { time } => if time is Some {
            "Scheduled: "@ + local
        } else {
            "Not scheduled yet"@
        },
    }
}

/// The time line of the match detail header, given the local rendering of
/// `header_timestamp`.
pub fn time_info_with(m: &Match, local: &str) -> (r: String)
    ensures
        r@ == time_info_text(*m, local@),
{
    proof {
        reveal_strlit("Played: ");
        reveal_strlit("Completed");
        reveal_strlit("Scheduled: ");
        reveal_strlit("Not scheduled yet");
    }
    match m.status() {
        MatchStatus::Completed { .. } => {
            if m.actual_time.is_some() {
                let mut s = text_of("Played: ");
                s.append(local);
                s
            } else {
                text_of("Completed")
            }
        },
        MatchStatus::Scheduled { time } => {
            if time.is_some() {
                let mut s = text_of("Scheduled: ");
                s.append(local);
                s
            } else {
                text_of("Not scheduled yet")
            }
        },
    }
}

/// The time line of the match detail header, with the time in the long
/// local format.
pub fn match_time_info(m: &Match) -> (r: String)
    requires
        header_timestamp(*m) matches Some(t) ==> renderable(t),
    ensures
        exists|local: Seq<char>| r@ == time_info_text(*m, local),
{
    let local = match header_time(m) {
        Some(t) => local_time_text(t, long_pattern()),
        None => String::new(),
    };
    let r = time_info_with(m, local.as_str());
    assert(r@ == time_info_text(*m, local@));
    r
}

/// The alliance of team `key` in a match: blue if it is listed there.
pub open spec fn on_blue(key: Seq<char>, m: Match) -> bool {
    crate::stats::in_alliance(key, m.alliances.blue)
}

/// The result of a completed match for one alliance.
pub open spec fn result_text(winner: Option<String>, blue: bool) -> Seq<char> {
    match winner {
        Some(w) => if (w@ == "blue"@ && blue) || (w@ == "red"@ && !blue) {
            "Won"@
        } else {
            "Lost"@
        },
        None => "Tie"@,
    }
}

/// The ranking points of an alliance from the breakdown, or "?".
pub open spec fn rp_text(m: Match, blue: bool) -> Seq<char> {
    match m.score_breakdown {
        Some(b) => {
            let a = if blue {
                b.blue
            } else {
                b.red
            };
            match a.rp {
                Some(v) => int_text(v as int),
                None => "?"@,
            }
        },
        None => "?"@,
    }
}

/// A row of a team's match schedule: icon, match name, alliance, result,
/// score (or time) and ranking points; `local` is the rendered local time
/// of a scheduled match.
pub open spec fn match_row_text(key: Seq<char>, m: Match, local: Seq<char>) -> (
    Seq<char>,
    Seq<char>,
    Seq<char>,
    Seq<char>,
    Seq<char>,
    Seq<char>,
) {
    let blue = on_blue(key, m);
    let name = crate::models::display_name_text(m.comp_level@, m.set_number, m.match_number);
    let alliance = if blue {
        "Blue"@
    } else {
        "Red"@
    };
    match status_of(m) {
        MatchStatus::Completed { blue_score, red_score, winner } => {
            let ours = if blue {
                blue_score
            } else {
                red_score
            };
            let theirs = if blue {
                red_score
            } else {
                blue_score
            };
            (
                "\u{2713}"@,
                name,
                alliance,
                result_text(winner, blue),
                int_text(ours as int) + "-"@ + int_text(theirs as int),
                rp_text(m, blue),
            )
        },
        MatchStatus::Scheduled { time } => (
            "\u{23f0}"@,
            name,
            alliance,
            "Scheduled"@,
            if time is Some {
                local
            } else {
                "Not scheduled"@
            },
            "-"@,
        ),
    }
}

/// The timestamp a schedule row shows: the expected time of a scheduled match.
pub open spec fn row_timestamp(m: Match) -> Option<i64> {
    match status_of(m) {
        MatchStatus::Completed { .. } => None,
        MatchStatus::Scheduled { time } => time,
    }
}

/// The timestamp a schedule row shows.
pub fn row_time(m: &Match) -> (r: Option<i64>)
    ensures
        r == row_timestamp(*m),
{
    match m.status() {
        MatchStatus::Completed { .. } => None,
        MatchStatus::Scheduled { time } => time,
    }
}

fn rp_string(m: &Match, blue: bool) -> (r: String)
    ensures
        r@ == rp_text(*m, blue),
{
    proof {
        reveal_strlit("?");
    }
    match &m.score_breakdown {
        Some(b) => {
            let a = if blue {
                b.blue
            } else {
                b.red
            };
            match a.rp {
                Some(v) => crate::text::int_to_text(v),
                None => text_of("?"),
            }
        },
        None => text_of("?"),
    }
}

/// A row of a team's match schedule, given the local rendering of the
/// expected time of a scheduled match.
pub fn format_match_row_with(team_key: &str, match_data: &Match, local: &str) -> (r: (
    String,
    String,
    String,
    String,
    String,
    String,
))
    ensures
        (r.0@, r.1@, r.2@, r.3@, r.4@, r.5@) == match_row_text(team_key@, *match_data, local@),
{
    proof {
        reveal_strlit("Blue");
        reveal_strlit("Red");
        reveal_strlit("blue");
        reveal_strlit("red");
        reveal_strlit("Won");
        reveal_strlit("Lost");
        reveal_strlit("Tie");
        reveal_strlit("-");
        reveal_strlit("\u{2713}");
        reveal_strlit("\u{23f0}");
        reveal_strlit("Scheduled");
        reveal_strlit("Not scheduled");
    }
    let match_name = match_data.display_name();
    let is_blue = crate::stats::team_is_in_match_blue(team_key, match_data);
    let alliance = if is_blue {
        text_of("Blue")
    } else {
        text_of("Red")
    };
    match match_data.status() {
        MatchStatus::Completed { blue_score, red_score, winner } => {
            let our_score = if is_blue {
                blue_score
            } else {
                red_score
            };
            let their_score = if is_blue {
                red_score
            } else {
                blue_score
            };
            let result = match &winner {
                Some(w) => {
                    if (str_eq(w.as_str(), "blue") && is_blue) || (str_eq(w.as_str(), "red") && !is_blue) {
                        text_of("Won")
                    } else {
                        text_of("Lost")
                    }
                },
                None => text_of("Tie"),
            };
            let mut score = String::new();
            push_int(&mut score, our_score as i64);
            score.append("-");
            push_int(&mut score, their_score as i64);
            let rp = rp_string(match_data, is_blue);
            let r = (text_of("\u{2713}"), match_name, alliance, result, score, rp);
            assert(r.4@ =~= int_text(our_score as int) + "-"@ + int_text(their_score as int));
            r
        },
        MatchStatus::Scheduled { time } => {
            let time_str = if time.is_some() {
                text_of(local)
            } else {
                text_of("Not scheduled")
            };
            (text_of("\u{23f0}"), match_name, alliance, text_of("Scheduled"), time_str, text_of("-"))
        },
    }
}

/// A row of a team's match schedule, with a scheduled match's time in the
/// short local format.
pub fn format_match_row(team_key: &str, match_data: &Match) -> (r: (
    String,
    String,
    String,
    String,
    String,
    String,
))
    requires
        row_timestamp(*match_data) matches Some(t) ==> renderable(t),
    ensures
        exists|local: Seq<char>| (r.0@, r.1@, r.2@, r.3@, r.4@, r.5@) == match_row_text(team_key@, *match_data, local),
{
    let local = match row_time(match_data) {
        Some(t) => local_time_text(t, short_pattern()),
        None => String::new(),
    };
    let r = format_match_row_with(team_key, match_data, local.as_str());
    assert((r.0@, r.1@, r.2@, r.3@, r.4@, r.5@) == match_row_text(team_key@, *match_data, local@));
    r
}

/// The title of an alliance's list on the match detail screen.
pub open spec fn alliance_title_text(blue: bool, status: MatchStatus) -> Seq<char> {
    match status {
        MatchStatus::Completed { blue_score, red_score, winner } => {
            let won = match winner {
                Some(w) => w@ == (if blue {
                    "blue"@
                } else {
                    "red"@
                }),
                None => false,
            };
            (if blue {
                " \u{1f535} Blue Alliance ("@
            } else {
                " \u{1f534} Red Alliance ("@
            }) + int_text(
                (if blue {
                    blue_score
                } else {
                    red_score
                }) as int,
            ) + (if won {
                ") - WON "@
            } else {
                ") "@
            })
        },
        MatchStatus::Scheduled { .. } => if blue {
            " \u{1f535} Blue Alliance "@
        } else {
            " \u{1f534} Red Alliance "@
        },
    }
}

/// The title of an alliance's list on the match detail screen.
pub fn alliance_title(blue: bool, status: &MatchStatus) -> (r: String)
    ensures
        r@ == alliance_title_text(blue, *status),
{
    proof {
        reveal_strlit("blue");
        reveal_strlit("red");
        reveal_strlit(" \u{1f535} Blue Alliance (");
        reveal_strlit(" \u{1f534} Red Alliance (");
        reveal_strlit(") - WON ");
        reveal_strlit(") ");
        reveal_strlit(" \u{1f535} Blue Alliance ");
        reveal_strlit(" \u{1f534} Red Alliance ");
    }
    match status {
        MatchStatus::Completed { blue_score, red_score, winner } => {
            let won = match winner {
                Some(w) => str_eq(w.as_str(), if blue {
                    "blue"
                } else {
                    "red"
                }),
                None => false,
            };
            let mut s = if blue {
                text_of(" \u{1f535} Blue Alliance (")
            } else {
                text_of(" \u{1f534} Red Alliance (")
            };
            push_int(&mut s, (if blue {
                *blue_score
            } else {
                *red_score
            }) as i64);
            if won {
                s.append(") - WON ");
            } else {
                s.append(") ");
            }
            s
        },
        MatchStatus::Scheduled { .. } => if blue {
            text_of(" \u{1f535} Blue Alliance ")
        } else {
            text_of(" \u{1f534} Red Alliance ")
        },
    }
}

/// The points line under an alliance's teams: auto, teleop and endgame
/// points from the breakdown (0 for a missing field); none without a breakdown.
pub open spec fn points_line_text(m: Match, blue: bool) -> Option<(Seq<char>, Seq<char>, Seq<char>)> {
    match m.score_breakdown {
        Some(b) => {
            let a = if blue {
                b.blue
            } else {
                b.red
            };
            Some(
                (
                    int_text(if a.auto_points is Some { a.auto_points->0 as int } else { 0 }),
                    int_text(if a.teleop_points is Some { a.teleop_points->0 as int } else { 0 }),
                    int_text(if a.endgame_points is Some { a.endgame_points->0 as int } else { 0 }),
                ),
            )
        },
        None => None,
    }
}

/// The auto, teleop and endgame points of an alliance as text.
pub fn points_line(m: &Match, blue: bool) -> (r: Option<(String, String, String)>)
    ensures
        match r {
            Some(t) => points_line_text(*m, blue) == Some((t.0@, t.1@, t.2@)),
            None => points_line_text(*m, blue) is None,
        },
{
    match &m.score_breakdown {
        Some(b) => {
            let a = if blue {
                b.blue
            } else {
                b.red
            };
            let auto = match a.auto_points {
                Some(v) => v,
                None => 0,
            };
            let teleop = match a.teleop_points {
                Some(v) => v,
                None => 0,
            };
            let endgame = match a.endgame_points {
                Some(v) => v,
                None => 0,
            };
            Some((crate::text::int_to_text(auto), crate::text::int_to_text(teleop), crate::text::int_to_text(endgame)))
        },
        None => None,
    }
}

/// The label of a team in an alliance list: its number and nickname when
/// the team is known, else its key and "Unknown".
pub open spec fn team_label_text(teams: Seq<crate::models::Team>, key: Seq<char>) -> (Seq<char>, Seq<char>) {
    let i = team_position(teams, key);
    if i >= 0 {
        (int_text(teams[i].team_number as int), teams[i].nickname@)
    } else {
        (key, "Unknown"@)
    }
}

/// The labels of an alliance's teams.
pub fn team_labels(app: &App, team_keys: &Vec<String>) -> (r: Vec<(String, String)>)
    ensures
        r@.len() == team_keys@.len(),
        forall|i: int| 0 <= i < r@.len() ==> (#[trigger] r@[i].0@, r@[i].1@) == team_label_text(app.data.teams@, team_keys@[i]@),
{
    proof {
        reveal_strlit("Unknown");
    }
    let mut r: Vec<(String, String)> = Vec::new();
    for i in 0..team_keys.len()
        invariant
            r@.len() == i,
            forall|j: int| 0 <= j < i ==> (#[trigger] r@[j].0@, r@[j].1@) == team_label_text(app.data.teams@, team_keys@[j]@),
    {
        let key = team_keys[i].as_str();
        let label = match app.get_team(key) {
            Some(t) => (crate::text::int_to_text(t.team_number as i64), text_of(t.nickname.as_str())),
            None => (text_of(key), text_of("Unknown")),
        };
        r.push(label);
    }
    r
}

/// The entry selected in an alliance list that starts at slot `offset` of
/// the match's six team slots.
pub fn list_selection(selected: usize, offset: usize, len: usize) -> (r: Option<usize>)
    ensures
        r == (if offset <= selected < offset + len {
            Some((selected - offset) as usize)
        } else {
            None::<usize>
        }),
{
    if selected >= offset && selected - offset < len {
        Some(selected - offset)
    } else {
        None
    }
}

/// The two parts of the team detail header.
pub open spec fn team_header_text(s: TeamStats) -> (Seq<char>, Seq<char>) {
    (
        "Team "@ + int_text(s.team_number as int) + " - "@ + s.team_name@ + " "@,
        "Rank: "@ + int_text(s.rank as int) + "/"@ + int_text(s.total_teams as int),
    )
}

/// The two parts of the team detail header.
pub fn team_header(stats: &TeamStats) -> (r: (String, String))
    ensures
        (r.0@, r.1@) == team_header_text(*stats),
{
    proof {
        reveal_strlit("Team ");
        reveal_strlit(" - ");
        reveal_strlit(" ");
        reveal_strlit("Rank: ");
        reveal_strlit("/");
    }
    let mut a = text_of("Team ");
    push_int(&mut a, stats.team_number as i64);
    a.append(" - ");
    a.append(stats.team_name.as_str());
    a.append(" ");
    let mut b = text_of("Rank: ");
    push_int(&mut b, stats.rank as i64);
    b.append("/");
    push_int(&mut b, stats.total_teams as i64);
    assert(a@ =~= team_header_text(*stats).0);
    assert(b@ =~= team_header_text(*stats).1);
    (a, b)
}

/// The two parts of the main screen's header: the event name, and its year
/// marked in test mode.
pub open spec fn event_header_text(event: Event, test_mode: bool) -> (Seq<char>, Seq<char>) {
    (
        event.name@ + " "@,
        if test_mode {
            int_text(event.year as int) + " [TEST MODE]"@
        } else {
            int_text(event.year as int)
        },
    )
}

/// The two parts of the main screen's header.
pub fn event_header(event: &Event, test_mode: bool) -> (r: (String, String))
    ensures
        (r.0@, r.1@) == event_header_text(*event, test_mode),
{
    proof {
        reveal_strlit(" ");
        reveal_strlit(" [TEST MODE]");
    }
    let mut a = text_of(event.name.as_str());
    a.append(" ");
    let mut b = crate::text::int_to_text(event.year as i64);
    if test_mode {
        b.append(" [TEST MODE]");
    }
    (a, b)
}

/// The cells of a row of the team list: rank, team number, name and record.
pub fn team_row(stats: &TeamStats) -> (r: (String, String, String, String))
    ensures
        r.0@ == int_text(stats.rank as int),
        r.1@ == int_text(stats.team_number as int),
        r.2@ == stats.team_name@,
        r.3@ == stats.record@,
{
    (
        crate::text::int_to_text(stats.rank as i64),
        crate::text::int_to_text(stats.team_number as i64),
        text_of(stats.team_name.as_str()),
        text_of(stats.record.as_str()),
    )
}

/// The share of the screen, in percent, left on each side of a popup that
/// takes `percent` of it.
pub fn popup_margin(percent: u16) -> (r: u16)
    requires
        percent <= 100,
    ensures
        r == (100 - percent) / 2,
{
    (100 - percent) / 2
}

/// The competition browser's title: the year of the first listed event
/// (2026 when there is none).
pub open spec fn browser_title_text(events: Seq<Event>) -> Seq<char> {
    " "@ + int_text(
        (if events.len() > 0 {
            events[0].year
        } else {
            2026
        }) as int,
    ) + " Regionals "@
}

/// The competition browser's title.
pub fn browser_title(events: &[Event]) -> (r: String)
    ensures
        r@ == browser_title_text(events@),
{
    proof {
        reveal_strlit(" ");
        reveal_strlit(" Regionals ");
    }
    let year = if events.len() > 0 {
        events[0].year
    } else {
        2026
    };
    let mut s = text_of(" ");
    push_int(&mut s, year as i64);
    s.append(" Regionals ");
    s
}

/// An optional text, or a default.
pub open spec fn text_or(s: Option<String>, default: Seq<char>) -> Seq<char> {
    match s {
        Some(t) => t@,
        None => default,
    }
}

/// The characters of a date between bytes 5 and 10 of its UTF-8 encoding:
/// the month and day of a "YYYY-MM-DD" date.
pub open spec fn month_day(date: Seq<char>) -> Seq<char> {
    decode_utf8(encode_utf8(date).subrange(5, 10))
}

/// The line of an event in the competition browser: a marker for the
/// current event, the name, the place and the month and day of the start
/// date.
pub open spec fn event_line_text(event: Event, is_current: bool) -> Seq<char> {
    (if is_current {
        "\u{2192} "@
    } else {
        "  "@
    }) + pad_right_text(event.name@, 40) + " "@ + pad_right_text(
        text_or(event.city, "Unknown"@) + ", "@ + text_or(event.state_prov, ""@),
        25,
    ) + " "@ + month_day(event.start_date@)
}

fn month_day_of(date: &str) -> (r: &str)
    requires
        is_char_boundary(encode_utf8(date@), 5),
        is_char_boundary(encode_utf8(date@), 10),
    ensures
        r@ == month_day(date@),
{
    let (head, _) = date.split_at(10);
    proof {
        let bytes = encode_utf8(date@);
        encode_utf8_valid_utf8(date@);
        encode_utf8_valid_utf8(head@);
        assert(encode_utf8(head@) =~= bytes.subrange(0, 10));
        is_char_boundary_iff_not_is_continuation_byte(bytes, 5);
        is_char_boundary_iff_not_is_continuation_byte(encode_utf8(head@), 5);
    }
    let (_, md) = head.split_at(5);
    proof {
        encode_utf8_decode_utf8(md@);
        assert(encode_utf8(md@) =~= encode_utf8(date@).subrange(5, 10));
    }
    md
}

/// The line of an event in the competition browser; bytes 5 and 10 of the
/// start date are character boundaries.
pub fn event_line(event: &Event, current_event_key: &str) -> (r: String)
    requires
        is_char_boundary(encode_utf8(event.start_date@), 5),
        is_char_boundary(encode_utf8(event.start_date@), 10),
    ensures
        r@ == event_line_text(*event, event.key@ == current_event_key@),
{
    proof {
        reveal_strlit("\u{2192} ");
        reveal_strlit("  ");
        reveal_strlit(" ");
        reveal_strlit("Unknown");
        reveal_strlit(", ");
        reveal_strlit("");
    }
    let is_current = str_eq(event.key.as_str(), current_event_key);
    let mut location = match &event.city {
        Some(c) => text_of(c.as_str()),
        None => text_of("Unknown"),
    };
    location.append(", ");
    match &event.state_prov {
        Some(p) => location.append(p.as_str()),
        None => location.append(""),
    }
    let mut s = if is_current {
        text_of("\u{2192} ")
    } else {
        text_of("  ")
    };
    push_padded(&mut s, event.name.as_str(), 40);
    s.append(" ");
    push_padded(&mut s, location.as_str(), 25);
    s.append(" ");
    s.append(month_day_of(event.start_date.as_str()));
    assert(s@ =~= event_line_text(*event, event.key@ == current_event_key@));
    s
}

/// In a team's row for a completed match, the result is "Won" exactly when
/// the winning alliance is named as the team's own alliance ("blue" for a
/// team listed on blue, "red" otherwise), "Tie" when there is no winner and
/// "Lost" for any other winner; the alliance cell names the team's own
/// alliance, and the score shows the own alliance's score first.
pub proof fn lemma_row_result(key: Seq<char>, m: Match, local: Seq<char>)
    requires
        m.actual_time is Some,
    ensures
        ({
            let on_blue = crate::stats::in_alliance(key, m.alliances.blue);
            let own = if on_blue { "blue"@ } else { "red"@ };
            let row = match_row_text(key, m, local);
            let (ours, theirs) = if on_blue {
                (m.alliances.blue.score, m.alliances.red.score)
            } else {
                (m.alliances.red.score, m.alliances.blue.score)
            };
            &&& (row.3 == "Won"@ <==> (m.winning_alliance matches Some(w) && w@ == own))
            &&& (row.3 == "Tie"@ <==> m.winning_alliance is None)
            &&& (row.3 == "Lost"@ <==> (m.winning_alliance matches Some(w) && w@ != own))
            &&& (row.2 == "Blue"@ <==> on_blue)
            &&& (row.2 == "Red"@ <==> !on_blue)
            &&& row.4 == int_text(ours as int) + "-"@ + int_text(theirs as int)
        }),
{
    reveal_strlit("blue");
    reveal_strlit("red");
    reveal_strlit("Won");
    reveal_strlit("Lost");
    reveal_strlit("Tie");
    reveal_strlit("Blue");
    reveal_strlit("Red");
    let on_blue = crate::stats::in_alliance(key, m.alliances.blue);
    let own = if on_blue { "blue"@ } else { "red"@ };
    let row = match_row_text(key, m, local);
    assert(row.3 == result_text(m.winning_alliance, on_blue));
    assert(("Won"@).len() == 3 && ("Tie"@).len() == 3 && ("Lost"@).len() == 4);
    assert(("Won"@)[0] != ("Tie"@)[0]);
    assert(("Blue"@).len() != ("Red"@).len());
    assert(("blue"@).len() != ("red"@).len());
}

/// The title of an alliance on a completed match ends in ") - WON " exactly
/// when the winner is that alliance's lowercase name ("blue" for the blue
/// title, "red" for the red one), and the number between its parentheses
/// reads back as that alliance's own score.
pub proof fn lemma_title_marks_winner(blue: bool, blue_score: i32, red_score: i32, winner: Option<String>)
    ensures
        ({
            let t = alliance_title_text(blue, MatchStatus::Completed { blue_score, red_score, winner });
            let name = if blue { "blue"@ } else { "red"@ };
            let own = if blue { blue_score } else { red_score };
            &&& t.len() >= 8
            &&& (t.skip(t.len() - 8) == ") - WON "@ <==> (winner matches Some(w) && w@ == name))
            &&& exists|open: int, close: int|
                0 <= open < close < t.len() && t[open] == '(' && t[close] == ')'
                && (forall|j: int| 0 <= j < open ==> #[trigger] t[j] != '(')
                && parse_i32_text(t.subrange(open + 1, close)) == Some(own)
        }),
{
    reveal_strlit("blue");
    reveal_strlit("red");
    reveal_strlit(" \u{1f535} Blue Alliance (");
    reveal_strlit(" \u{1f534} Red Alliance (");
    reveal_strlit(") - WON ");
    reveal_strlit(") ");
    let t = alliance_title_text(blue, MatchStatus::Completed { blue_score, red_score, winner });
    let name = if blue { "blue"@ } else { "red"@ };
    let own = if blue { blue_score } else { red_score };
    let prefix = if blue { " \u{1f535} Blue Alliance ("@ } else { " \u{1f534} Red Alliance ("@ };
    let won = winner matches Some(w) && w@ == name;
    let tail = if won { ") - WON "@ } else { ") "@ };
    let num = int_text(own as int);
    crate::text::lemma_int_text_nonempty(own as int);
    crate::text::lemma_parse_int_text(own);
    assert(t =~= prefix + num + tail);
    let open: int = prefix.len() - 1;
    let close: int = (prefix.len() + num.len()) as int;
    assert(t[open] == '(');
    assert(t[close] == ')');
    assert(t.subrange(open + 1, close) =~= num);
    assert forall|j: int| 0 <= j < open implies #[trigger] t[j] != '(' by {
        assert(t[j] == prefix[j]);
    }
    if won {
        assert(t.skip(t.len() - 8) =~= ") - WON "@);
    } else {
        assert(t.skip(t.len() - 8)[6] == ')');
        assert((") - WON "@)[6] == 'N');
    }
}

/// The rank part of a team's header is "Rank: ", then the team's rank, a
/// "/" and the number of teams: the text between "Rank: " and the first
/// "/" reads back as the rank and the text after it as the number of teams.
pub proof fn lemma_team_header_rank(s: TeamStats)
    ensures
        ({
            let t = team_header_text(s).1;
            &&& t.len() > 6
            &&& t.take(6) == "Rank: "@
            &&& exists|slash: int|
                6 < slash < t.len() && t[slash] == '/'
                && (forall|j: int| 6 <= j < slash ==> #[trigger] t[j] != '/')
                && parse_i32_text(t.subrange(6, slash)) == Some(s.rank)
                && parse_i32_text(t.skip(slash + 1)) == Some(s.total_teams)
        }),
{
    reveal_strlit("Rank: ");
    reveal_strlit("/");
    let t = team_header_text(s).1;
    let a = int_text(s.rank as int);
    let b = int_text(s.total_teams as int);
    crate::text::lemma_int_text_nonempty(s.rank as int);
    crate::text::lemma_parse_int_text(s.rank);
    crate::text::lemma_parse_int_text(s.total_teams);
    crate::text::lemma_int_text_has_no_slash(s.rank as int);
    assert(t =~= "Rank: "@ + a + "/"@ + b);
    let slash: int = (6 + a.len()) as int;
    assert(t.take(6) =~= "Rank: "@);
    assert(t[slash] == '/');
    assert(t.subrange(6, slash) =~= a);
    assert(t.skip(slash + 1) =~= b);
    assert forall|j: int| 6 <= j < slash implies #[trigger] t[j] != '/' by {
        assert(t[j] == a[j - 6]);
    }
}

/// The match detail header shows "Played: " and the local rendering of the
/// actual time of a completed match, "Scheduled: " and the rendering of the
/// predicted (else planned) time of a scheduled match that has one, and
/// "Not scheduled yet" otherwise; a schedule row renders only the time of a
/// scheduled match.
pub proof fn lemma_time_lines(m: Match, local: Seq<char>)
    ensures
        m.actual_time is Some ==> time_info_text(m, local) == "Played: "@ + local && header_timestamp(m)
            == m.actual_time && row_timestamp(m) is None,
        m.actual_time is None && m.predicted_time is Some ==> time_info_text(m, local) == "Scheduled: "@ + local
            && header_timestamp(m) == m.predicted_time && row_timestamp(m) == m.predicted_time,
        m.actual_time is None && m.predicted_time is None && m.time is Some ==> time_info_text(m, local)
            == "Scheduled: "@ + local && header_timestamp(m) == m.time && row_timestamp(m) == m.time,
        m.actual_time is None && m.predicted_time is None && m.time is None ==> time_info_text(m, local)
            == "Not scheduled yet"@ && header_timestamp(m) is None && row_timestamp(m) is None,
{
}

/// In a team's row, the ranking points are those of the team's own
/// alliance in the breakdown of a completed match, "?" when they are
/// missing, and "-" for a scheduled match; a scheduled match shows
/// "Scheduled" and the rendered time, or "Not scheduled" without one.
pub proof fn lemma_row_points_and_schedule(key: Seq<char>, m: Match, local: Seq<char>)
    ensures
        ({
            let row = match_row_text(key, m, local);
            let on_blue = crate::stats::in_alliance(key, m.alliances.blue);
            &&& m.actual_time is Some ==> row.5 == (match m.score_breakdown {
                Some(b) => match (if on_blue { b.blue } else { b.red }).rp {
                    Some(v) => int_text(v as int),
                    None => "?"@,
                },
                None => "?"@,
            })
            &&& m.actual_time is None ==> row.3 == "Scheduled"@ && row.5 == "-"@ && row.4 == (if m.predicted_time is Some
                || m.time is Some {
                local
            } else {
                "Not scheduled"@
            })
        }),
{
}

/// A team's label is its number and nickname from its first entry in the
/// team list, and its key with "Unknown" when it is not listed.
pub proof fn lemma_team_label(teams: Seq<crate::models::Team>, key: Seq<char>)
    ensures
        forall|t: int|
            0 <= t < teams.len() && (#[trigger] teams[t]).key@ == key && (forall|j: int|
                0 <= j < t ==> (#[trigger] teams[j]).key@ != key) ==> team_label_text(teams, key) == (
                int_text(teams[t].team_number as int),
                teams[t].nickname@,
            ),
        (forall|j: int| 0 <= j < teams.len() ==> (#[trigger] teams[j]).key@ != key) ==> team_label_text(teams, key)
            == (key, "Unknown"@),
{
    assert forall|t: int|
        0 <= t < teams.len() && (#[trigger] teams[t]).key@ == key && (forall|j: int|
            0 <= j < t ==> (#[trigger] teams[j]).key@ != key) implies team_label_text(teams, key) == (
        int_text(teams[t].team_number as int),
        teams[t].nickname@,
    ) by {
        crate::search::lemma_first_index_found(teams, crate::stats::team_has_key(key), t);
    }
    if forall|j: int| 0 <= j < teams.len() ==> (#[trigger] teams[j]).key@ != key {
        crate::search::lemma_first_index_absent(teams, crate::stats::team_has_key(key));
    }
}

/// The points line of an alliance exists exactly when the match has a
/// breakdown, and shows that alliance's auto, teleop and endgame points,
/// zero for a missing value.
pub proof fn lemma_points_line(m: Match, blue: bool)
    ensures
        points_line_text(m, blue) is Some <==> m.score_breakdown is Some,
        m.score_breakdown matches Some(b) ==> ({
            let a = if blue { b.blue } else { b.red };
            let v = |p: Option<i64>| match p { Some(x) => x as int, None => 0 };
            points_line_text(m, blue) == Some(
                (int_text(v(a.auto_points)), int_text(v(a.teleop_points)), int_text(v(a.endgame_points))),
            )
        }),
{
}

/// The event header shows the event name, and the year, followed by
/// " [TEST MODE]" exactly in test mode; the browser's title names the year
/// of the first listed event, or 2026 when none is listed.
pub proof fn lemma_headers(event: Event, test_mode: bool, events: Seq<Event>)
    ensures
        event_header_text(event, test_mode).0 == event.name@ + " "@,
        test_mode ==> event_header_text(event, test_mode).1 == int_text(event.year as int) + " [TEST MODE]"@,
        !test_mode ==> event_header_text(event, test_mode).1 == int_text(event.year as int),
        events.len() > 0 ==> browser_title_text(events) == " "@ + int_text(events[0].year as int) + " Regionals "@,
        events.len() == 0 ==> browser_title_text(events) == " "@ + int_text(2026) + " Regionals "@,
{
}

/// For an ASCII date of at least ten characters, the month and day shown
/// are its characters 5 to 10.
pub proof fn lemma_month_day_ascii(date: Seq<char>)
    requires
        is_ascii_chars(date),
        date.len() >= 10,
    ensures
        month_day(date) == date.subrange(5, 10),
{
    let part = date.subrange(5, 10);
    assert(is_ascii_chars(part));
    is_ascii_chars_encode_utf8(date);
    is_ascii_chars_encode_utf8(part);
    assert(encode_utf8(date).subrange(5, 10) =~= encode_utf8(part)) by {
        assert forall|i: int| 0 <= i < 5 implies encode_utf8(date).subrange(5, 10)[i] == #[trigger] encode_utf8(part)[i] by {
            assert(part[i] == date[i + 5]);
        }
    }
    encode_utf8_decode_utf8(part);
}

/// An event's line in the competition browser starts with an arrow
/// exactly for the current event, shows the name padded to 40 characters
/// after the marker, and ends with the month and day of its start date.
pub proof fn lemma_event_line(event: Event, is_current: bool)
    ensures
        ({
            let t = event_line_text(event, is_current);
            let md = month_day(event.start_date@);
            let name_len = if event.name@.len() < 40 { 40 } else { event.name@.len() };
            &&& t.take(2) == (if is_current { "\u{2192} "@ } else { "  "@ })
            &&& t.subrange(2, 2 + name_len as int) == pad_right_text(event.name@, 40)
            &&& t.len() >= md.len()
            &&& t.skip(t.len() - md.len()) == md
        }),
{
    reveal_strlit("\u{2192} ");
    reveal_strlit("  ");
    let t = event_line_text(event, is_current);
    let md = month_day(event.start_date@);
    let marker = if is_current { "\u{2192} "@ } else { "  "@ };
    let name = pad_right_text(event.name@, 40);
    crate::text::lemma_pad_right(event.name@, 40);
    let rest = " "@ + pad_right_text(
        text_or(event.city, "Unknown"@) + ", "@ + text_or(event.state_prov, ""@),
        25,
    ) + " "@;
    assert(t =~= marker + name + rest + md);
    assert(t.take(2) =~= marker);
    assert(t.subrange(2, 2 + name.len() as int) =~= name);
    assert(t.skip(t.len() - md.len()) =~= md);
}

} // verus!
