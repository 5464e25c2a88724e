use apibrowser::app::{App, View};
use apibrowser::display::{
    alliance_title, browser_title, event_header, event_line, format_match_row, format_match_row_with, header_time,
    list_selection, long_pattern, match_time_info, points_line, popup_margin, row_time, short_pattern, team_header,
    team_labels, team_row, time_info_with,
};
use apibrowser::input::{Key, KeyOutcome, regional_events};
use apibrowser::models::{
    Alliance, AllianceBreakdown, Event, EventOPRs, Match, MatchAlliances, Ranking, ScoreBreakdown, Team, WLTRecord,
};

fn team(key: &str, number: i32, nickname: &str) -> Team {
    Team {
        key: key.to_string(),
        team_number: number,
        nickname: nickname.to_string(),
        name: nickname.to_string(),
        city: None,
        state_prov: None,
        country: None,
    }
}

fn ranking(key: &str, rank: i32) -> Ranking {
    Ranking { rank, team_key: key.to_string(), sort_orders: vec![], record: WLTRecord { wins: 0, losses: 0, ties: 0 }, matches_played: 0 }
}

fn event(key: &str, name: &str, event_type: i32, start_date: &str) -> Event {
    Event {
        key: key.to_string(),
        name: name.to_string(),
        event_code: key.to_string(),
        event_type,
        start_date: start_date.to_string(),
        end_date: start_date.to_string(),
        year: 2024,
        city: Some("Rochester".to_string()),
        state_prov: None,
        country: None,
        timezone: None,
    }
}

fn game(key: &str, blue: &[&str], red: &[&str], actual: Option<i64>) -> Match {
    Match {
        key: key.to_string(),
        comp_level: "qm".to_string(),
        set_number: 1,
        match_number: 4,
        alliances: MatchAlliances {
            blue: Alliance { score: 50, team_keys: blue.iter().map(|s| s.to_string()).collect() },
            red: Alliance { score: 30, team_keys: red.iter().map(|s| s.to_string()).collect() },
        },
        winning_alliance: None,
        time: None,
        actual_time: actual,
        predicted_time: None,
        score_breakdown: None,
    }
}

fn sample_app() -> App {
    let teams = vec![team("frc10", 10, "Ten"), team("frc20", 20, "Twenty"), team("frc30", 30, "Thirty")];
    let rankings = vec![ranking("frc20", 1), ranking("frc10", 2)];
    let matches = vec![
        game("m1", &["frc10", "frc20", "frc30"], &["frc40", "frc50", "frc60"], Some(100)),
        game("m2", &["frc30"], &["frc10"], Some(50)),
    ];
    App::new(event("2024nyro", "Finger Lakes", 1, "2024-03-13"), teams, rankings, matches, EventOPRs::default(), false)
}

fn list_state(app: &App) -> (usize, String, bool) {
    match &app.current_view {
        View::TeamList { selected_index, search_query, searching } => (*selected_index, search_query.clone(), *searching),
        other => panic!("not on the team list: {:?}", other),
    }
}

fn press(app: &mut App, key: Key) -> KeyOutcome {
    app.handle_key(key, &[], "2024nyro")
}

#[test]
fn quit_and_refresh_on_every_screen() {
    let mut app = sample_app();
    assert!(matches!(press(&mut app, Key::Char('q')), KeyOutcome::Quit));
    assert!(matches!(press(&mut app, Key::Char('r')), KeyOutcome::Refresh));
    app.current_view = View::TeamList { selected_index: 0, search_query: String::new(), searching: true };
    assert!(matches!(press(&mut app, Key::Char('q')), KeyOutcome::Quit));
    assert_eq!(list_state(&app), (0, String::new(), true));
}

#[test]
fn list_moves_within_bounds() {
    let mut app = sample_app();
    press(&mut app, Key::Down);
    press(&mut app, Key::Char('j'));
    press(&mut app, Key::Down);
    press(&mut app, Key::Down);
    assert_eq!(list_state(&app), (2, String::new(), false));
    press(&mut app, Key::Up);
    assert_eq!(list_state(&app).0, 1);
    press(&mut app, Key::Char('k'));
    press(&mut app, Key::Char('k'));
    assert_eq!(list_state(&app).0, 0);
    app.current_view = View::TeamList { selected_index: usize::MAX, search_query: String::new(), searching: false };
    press(&mut app, Key::Down);
    assert_eq!(list_state(&app).0, 2);
}

#[test]
fn search_by_team_number() {
    let mut app = sample_app();
    press(&mut app, Key::Char('/'));
    assert_eq!(list_state(&app), (0, String::new(), true));
    press(&mut app, Key::Char('3'));
    press(&mut app, Key::Char('x'));
    press(&mut app, Key::Char('0'));
    assert_eq!(list_state(&app), (0, "30".to_string(), true));
    press(&mut app, Key::Backspace);
    assert_eq!(list_state(&app), (0, "3".to_string(), true));
    press(&mut app, Key::Char('0'));
    press(&mut app, Key::Enter);
    assert_eq!(list_state(&app), (2, String::new(), false));
    // a number nobody has keeps the selection
    press(&mut app, Key::Char('/'));
    press(&mut app, Key::Char('7'));
    press(&mut app, Key::Enter);
    assert_eq!(list_state(&app), (2, String::new(), false));
    // escape cancels
    press(&mut app, Key::Char('/'));
    press(&mut app, Key::Char('1'));
    press(&mut app, Key::Esc);
    assert_eq!(list_state(&app), (2, String::new(), false));
    // empty query just leaves search mode; backspace on empty stays empty
    press(&mut app, Key::Char('/'));
    press(&mut app, Key::Backspace);
    assert_eq!(list_state(&app), (2, String::new(), true));
    press(&mut app, Key::Enter);
    assert_eq!(list_state(&app), (2, String::new(), false));
}

#[test]
fn search_query_too_large_leaves_search() {
    let mut app = sample_app();
    app.current_view = View::TeamList { selected_index: 1, search_query: "99999999999".to_string(), searching: true };
    press(&mut app, Key::Enter);
    assert_eq!(list_state(&app), (1, String::new(), false));
}

#[test]
fn search_enter_always_exits_search_mode() {
    let ev = event("2024nyro", "Finger Lakes", 1, "2024-03-13");
    let mut app = App::new(ev, vec![team("frc1", 1, "")], vec![], vec![], EventOPRs::default(), false);
    app.current_view = View::TeamList { selected_index: 0, search_query: "99999999999".into(), searching: true };
    press(&mut app, Key::Enter);
    assert_eq!(list_state(&app), (0, String::new(), false));
    assert!(app.view_history.is_empty());
}

#[test]
fn team_detail_leaves_for_team_list() {
    let mut app = sample_app();
    for key in [Key::Esc, Key::Backspace] {
        app.view_history = vec![
            View::TeamList { selected_index: 2, search_query: String::new(), searching: false },
            View::MatchDetail { match_key: "m1".to_string(), selected_team_index: 0 },
        ];
        app.current_view = View::TeamDetail { team_key: "frc10".to_string(), selected_match_index: 0 };
        press(&mut app, key);
        assert_eq!(list_state(&app), (2, String::new(), false));
        assert!(app.view_history.is_empty());
    }
    // the most recent team list is the one returned to
    app.view_history = vec![
        View::TeamList { selected_index: 0, search_query: String::new(), searching: false },
        View::CompetitionBrowser { selected_index: 0 },
        View::TeamList { selected_index: 1, search_query: String::new(), searching: false },
        View::MatchDetail { match_key: "m1".to_string(), selected_team_index: 0 },
    ];
    app.current_view = View::TeamDetail { team_key: "frc10".to_string(), selected_match_index: 0 };
    press(&mut app, Key::Esc);
    assert_eq!(list_state(&app), (1, String::new(), false));
    assert_eq!(app.view_history.len(), 2);
    // without a team list to return to, it goes back one screen
    app.view_history = vec![View::CompetitionBrowser { selected_index: 3 }];
    app.current_view = View::TeamDetail { team_key: "frc10".to_string(), selected_match_index: 0 };
    press(&mut app, Key::Esc);
    assert!(matches!(&app.current_view, View::CompetitionBrowser { selected_index: 3 }));
    assert!(app.view_history.is_empty());
    app.current_view = View::TeamDetail { team_key: "frc10".to_string(), selected_match_index: 0 };
    press(&mut app, Key::Esc);
    assert!(matches!(&app.current_view, View::TeamDetail { .. }));
}

#[test]
fn opening_team_then_match_then_team_and_back() {
    let mut app = sample_app();
    // list: frc20 (rank 1), frc10 (rank 2), frc30 (unranked)
    press(&mut app, Key::Down);
    press(&mut app, Key::Enter);
    assert!(matches!(&app.current_view, View::TeamDetail { team_key, selected_match_index: 0 } if team_key == "frc10"));
    // frc10 plays m2 (t=50) then m1 (t=100)
    press(&mut app, Key::Down);
    press(&mut app, Key::Down);
    assert!(matches!(&app.current_view, View::TeamDetail { selected_match_index: 1, .. }));
    press(&mut app, Key::Enter);
    assert!(matches!(&app.current_view, View::MatchDetail { match_key, selected_team_index: 0 } if match_key == "m1"));
    for _ in 0..10 {
        press(&mut app, Key::Down);
    }
    assert!(matches!(&app.current_view, View::MatchDetail { selected_team_index: 5, .. }));
    press(&mut app, Key::Up);
    press(&mut app, Key::Up);
    press(&mut app, Key::Enter);
    assert!(matches!(&app.current_view, View::TeamDetail { team_key, .. } if team_key == "frc40"));
    assert_eq!(app.view_history.len(), 3);
    // the match detail screen goes back one screen
    press(&mut app, Key::Enter);
    assert!(matches!(&app.current_view, View::MatchDetail { match_key, .. } if match_key == "m1"));
    press(&mut app, Key::Backspace);
    assert!(matches!(&app.current_view, View::TeamDetail { team_key, .. } if team_key == "frc40"));
    // the team detail screen returns to the team list
    press(&mut app, Key::Esc);
    assert_eq!(list_state(&app), (1, String::new(), false));
    assert!(app.view_history.is_empty());
    press(&mut app, Key::Esc);
    press(&mut app, Key::Backspace);
    assert_eq!(list_state(&app), (1, String::new(), false));
}

#[test]
fn match_slot_without_team_does_nothing() {
    let mut app = sample_app();
    app.current_view = View::MatchDetail { match_key: "m2".to_string(), selected_team_index: 3 };
    press(&mut app, Key::Enter);
    assert!(matches!(&app.current_view, View::MatchDetail { selected_team_index: 3, .. }));
    app.current_view = View::MatchDetail { match_key: "nope".to_string(), selected_team_index: 0 };
    press(&mut app, Key::Enter);
    assert!(matches!(&app.current_view, View::MatchDetail { .. }));
}

fn events() -> Vec<Event> {
    vec![
        event("2024nyli", "Long Island", 1, "2024-04-03"),
        event("2024champs", "Championship", 4, "2024-04-17"),
        event("2024nyro", "Finger Lakes", 1, "2024-03-13"),
        event("2024nytr", "New York Tech Valley", 1, "2024-03-13"),
        event("2024week0", "Week Zero", 99, "2024-02-17"),
    ]
}

#[test]
fn regional_events_by_start_date() {
    assert_eq!(regional_events(&events()), vec![2, 3, 0]);
    assert!(regional_events(&[]).is_empty());
}

#[test]
fn competition_browser_switches_events() {
    let evs = events();
    let mut app = sample_app();
    app.handle_key(Key::Char('p'), &evs, "2024nyro");
    assert!(matches!(&app.current_view, View::CompetitionBrowser { selected_index: 0 }));
    assert_eq!(app.view_history.len(), 1);
    // choosing the current event goes back
    let out = app.handle_key(Key::Enter, &evs, "2024nyro");
    assert!(matches!(out, KeyOutcome::Continue));
    assert_eq!(list_state(&app), (0, String::new(), false));
    app.handle_key(Key::Char('p'), &evs, "2024nyro");
    for _ in 0..5 {
        app.handle_key(Key::Down, &evs, "2024nyro");
    }
    assert!(matches!(&app.current_view, View::CompetitionBrowser { selected_index: 2 }));
    match app.handle_key(Key::Enter, &evs, "2024nyro") {
        KeyOutcome::SwitchEvent { event_key, event_name } => {
            assert_eq!(event_key, "2024nyli");
            assert_eq!(event_name, "Long Island");
        },
        other => panic!("unexpected {:?}", other),
    }
    assert_eq!(list_state(&app), (0, String::new(), false));
    app.handle_key(Key::Char('p'), &evs, "2024nyli");
    assert!(matches!(app.handle_key(Key::Esc, &evs, "2024nyli"), KeyOutcome::Continue));
    assert!(matches!(&app.current_view, View::TeamList { .. }));
}

#[test]
fn match_detail_time_lines() {
    let m = game("m", &[], &[], None);
    assert_eq!(time_info_with(&m, "ignored"), "Not scheduled yet");
    let mut m2 = m.clone();
    m2.predicted_time = Some(1710000000);
    assert_eq!(time_info_with(&m2, "Sat, Mar 9, 2024 at 10:00 AM"), "Scheduled: Sat, Mar 9, 2024 at 10:00 AM");
    let mut m3 = m.clone();
    m3.actual_time = Some(1710000000);
    assert_eq!(time_info_with(&m3, "T"), "Played: T");
    let line = match_time_info(&m3);
    assert!(line.starts_with("Played: ") && line.len() > "Played: ".len());
    assert_eq!(match_time_info(&m), "Not scheduled yet");
}

#[test]
fn schedule_rows() {
    let mut m = game("m", &["frc1"], &["frc2"], Some(10));
    m.winning_alliance = Some("blue".to_string());
    m.score_breakdown = Some(ScoreBreakdown {
        blue: AllianceBreakdown { auto_points: None, teleop_points: None, endgame_points: None, rp: Some(3) },
        red: AllianceBreakdown { auto_points: None, teleop_points: None, endgame_points: None, rp: None },
    });
    let row = format_match_row_with("frc1", &m, "unused");
    assert_eq!(row, ("\u{2713}".into(), "Quals 4".into(), "Blue".into(), "Won".into(), "50-30".into(), "3".into()));
    let row = format_match_row_with("frc2", &m, "unused");
    assert_eq!(row, ("\u{2713}".into(), "Quals 4".into(), "Red".into(), "Lost".into(), "30-50".into(), "?".into()));
    m.winning_alliance = None;
    assert_eq!(format_match_row_with("frc2", &m, "").3, "Tie");
    m.winning_alliance = Some(String::new());
    assert_eq!(format_match_row_with("frc1", &m, "").3, "Lost");
    m.score_breakdown = None;
    assert_eq!(format_match_row_with("frc1", &m, "").5, "?");
    let mut s = game("s", &["frc1"], &[], None);
    assert_eq!(
        format_match_row_with("frc1", &s, "x"),
        ("\u{23f0}".into(), "Quals 4".into(), "Blue".into(), "Scheduled".into(), "Not scheduled".into(), "-".into())
    );
    s.time = Some(1710000000);
    assert_eq!(format_match_row_with("frc1", &s, "Sat 10:00 AM").4, "Sat 10:00 AM");
    let row = format_match_row("frc1", &s);
    assert!(!row.4.is_empty() && row.4 != "Not scheduled" && row.4.contains(':'));
}

#[test]
fn alliance_titles_and_points() {
    let mut m = game("m", &[], &[], Some(1));
    m.winning_alliance = Some("red".to_string());
    assert_eq!(alliance_title(true, &m.status()), " \u{1f535} Blue Alliance (50) ");
    assert_eq!(alliance_title(false, &m.status()), " \u{1f534} Red Alliance (30) - WON ");
    let s = game("s", &[], &[], None);
    assert_eq!(alliance_title(true, &s.status()), " \u{1f535} Blue Alliance ");
    assert_eq!(points_line(&m, true), None);
    m.score_breakdown = Some(ScoreBreakdown {
        blue: AllianceBreakdown { auto_points: Some(12), teleop_points: None, endgame_points: Some(-1), rp: None },
        red: AllianceBreakdown { auto_points: None, teleop_points: Some(40), endgame_points: None, rp: None },
    });
    assert_eq!(points_line(&m, true), Some(("12".into(), "0".into(), "-1".into())));
    assert_eq!(points_line(&m, false), Some(("0".into(), "40".into(), "0".into())));
}

#[test]
fn labels_and_selection() {
    let app = sample_app();
    let labels = team_labels(&app, &vec!["frc20".to_string(), "frc99".to_string()]);
    assert_eq!(labels, vec![("20".to_string(), "Twenty".to_string()), ("frc99".to_string(), "Unknown".to_string())]);
    assert_eq!(list_selection(4, 3, 3), Some(1));
    assert_eq!(list_selection(2, 3, 3), None);
    assert_eq!(list_selection(6, 3, 3), None);
    assert_eq!(list_selection(0, 0, 0), None);
}

#[test]
fn headers_and_rows() {
    let app = sample_app();
    let s = app.get_team_stats("frc10").unwrap();
    assert_eq!(team_header(s), ("Team 10 - Ten ".to_string(), "Rank: 2/2".to_string()));
    assert_eq!(team_row(s), ("2".into(), "10".into(), "Ten".into(), "0-0-0".into()));
    assert_eq!(event_header(&app.data.event, false), ("Finger Lakes ".to_string(), "2024".to_string()));
    assert_eq!(event_header(&app.data.event, true).1, "2024 [TEST MODE]");
    assert_eq!(browser_title(&events()), " 2024 Regionals ");
    assert_eq!(browser_title(&[]), " 2026 Regionals ");
}

#[test]
fn event_lines() {
    let e = event("2024nyro", "Finger Lakes", 1, "2024-03-13");
    let expected = format!("{}{:<40} {:<25} {}", "\u{2192} ", "Finger Lakes", "Rochester, ", "03-13");
    assert_eq!(event_line(&e, "2024nyro"), expected);
    let mut e2 = e.clone();
    e2.city = None;
    e2.state_prov = Some("NY".to_string());
    let expected = format!("{}{:<40} {:<25} {}", "  ", "Finger Lakes", "Unknown, NY", "03-13");
    assert_eq!(event_line(&e2, "other"), expected);
    // the date is cut at bytes 5 and 10, whatever the characters
    let e3 = event("2024x", "X", 1, "2024-\u{e9}3-13");
    let expected = format!("{}{:<40} {:<25} {}", "  ", "X", "Rochester, ", "\u{e9}3-1");
    assert_eq!(event_line(&e3, "other"), expected);
    let e4 = event("2024y", "Y", 1, "\u{65e5}-1-12-31");
    assert!(event_line(&e4, "2024y").ends_with(" -12-3"));
}

#[test]
fn time_arguments_and_margins() {
    let m = game("m", &[], &[], None);
    assert_eq!((header_time(&m), row_time(&m)), (None, None));
    let mut s = m.clone();
    s.time = Some(10);
    s.predicted_time = Some(20);
    assert_eq!((header_time(&s), row_time(&s)), (Some(20), Some(20)));
    let mut c = m.clone();
    c.actual_time = Some(30);
    c.predicted_time = Some(20);
    assert_eq!((header_time(&c), row_time(&c)), (Some(30), None));
    assert_eq!(long_pattern(), "%a, %b %-d, %Y at %-I:%M %p");
    assert_eq!(short_pattern(), "%a %-I:%M %p");
    assert_eq!((popup_margin(50), popup_margin(60), popup_margin(100), popup_margin(0), popup_margin(33)), (25, 20, 0, 50, 33));
}

#[test]
fn renderable_range_is_chrono_range() {
    assert!(chrono::DateTime::from_timestamp(8210266876799, 0).is_some());
    assert!(chrono::DateTime::from_timestamp(8210266876800, 0).is_none());
    assert!(chrono::DateTime::from_timestamp(-8334601228800, 0).is_some());
    assert!(chrono::DateTime::from_timestamp(-8334601228801, 0).is_none());
}
