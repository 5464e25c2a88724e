use apibrowser::app::{App, LoadError, View};
use apibrowser::models::{
    Alliance, AllianceBreakdown, Event, EventOPRs, Match, MatchAlliances, MatchStatus, Ranking, ScoreBreakdown, Team,
    WLTRecord, rating_for,
};
use apibrowser::stats::{
    TeamStats, calculate_team_stats, create_unranked_team_stats, extract_points_for_team, team_is_in_match,
};

fn team(key: &str, number: i32, nickname: &str) -> Team {
    Team {
        key: key.to_string(),
        team_number: number,
        nickname: nickname.to_string(),
        name: format!("{} full name", nickname),
        city: None,
        state_prov: None,
        country: None,
    }
}

fn ranking(key: &str, rank: i32, sort_orders: Vec<f32>, wins: i32, losses: i32, ties: i32) -> Ranking {
    Ranking {
        rank,
        team_key: key.to_string(),
        sort_orders: sort_orders.iter().map(|f| f.to_bits()).collect(),
        record: WLTRecord { wins, losses, ties },
        matches_played: wins + losses + ties,
    }
}

fn breakdown(auto: Option<i64>, teleop: Option<i64>, endgame: Option<i64>, rp: Option<i64>) -> AllianceBreakdown {
    AllianceBreakdown { auto_points: auto, teleop_points: teleop, endgame_points: endgame, rp }
}

fn a_match(key: &str, blue: &[&str], red: &[&str], actual: Option<i64>, predicted: Option<i64>, time: Option<i64>) -> Match {
    Match {
        key: key.to_string(),
        comp_level: "qm".to_string(),
        set_number: 1,
        match_number: 1,
        alliances: MatchAlliances {
            blue: Alliance { score: 0, team_keys: blue.iter().map(|s| s.to_string()).collect() },
            red: Alliance { score: 0, team_keys: red.iter().map(|s| s.to_string()).collect() },
        },
        winning_alliance: None,
        time,
        actual_time: actual,
        predicted_time: predicted,
        score_breakdown: None,
    }
}

fn event(key: &str) -> Event {
    Event {
        key: key.to_string(),
        name: "Finger Lakes Regional".to_string(),
        event_code: "nyro".to_string(),
        event_type: 1,
        start_date: "2024-03-13".to_string(),
        end_date: "2024-03-16".to_string(),
        year: 2024,
        city: Some("Rochester".to_string()),
        state_prov: Some("NY".to_string()),
        country: None,
        timezone: None,
    }
}

fn oprs(entries: &[(&str, f32)]) -> EventOPRs {
    EventOPRs {
        oprs: entries.iter().map(|(k, v)| (k.to_string(), v.to_bits())).collect(),
        dprs: Vec::new(),
        ccwms: Vec::new(),
    }
}

#[test]
fn status_of_completed_match_carries_scores_and_winner() {
    let mut m = a_match("m1", &["frc1"], &["frc2"], Some(100), Some(90), Some(80));
    m.alliances.blue.score = 42;
    m.alliances.red.score = 17;
    m.winning_alliance = Some("blue".to_string());
    match m.status() {
        MatchStatus::Completed { blue_score, red_score, winner } => {
            assert_eq!(blue_score, 42);
            assert_eq!(red_score, 17);
            assert_eq!(winner, Some("blue".to_string()));
        },
        _ => panic!("expected a completed match"),
    }
}

#[test]
fn status_of_scheduled_match_prefers_predicted_time() {
    let m = a_match("m1", &[], &[], None, Some(90), Some(80));
    assert!(matches!(m.status(), MatchStatus::Scheduled { time: Some(90) }));
    let m = a_match("m1", &[], &[], None, None, Some(80));
    assert!(matches!(m.status(), MatchStatus::Scheduled { time: Some(80) }));
    let m = a_match("m1", &[], &[], None, None, None);
    assert!(matches!(m.status(), MatchStatus::Scheduled { time: None }));
}

#[test]
fn display_names_of_each_level() {
    let mut m = a_match("m", &[], &[], None, None, None);
    m.set_number = 2;
    m.match_number = 7;
    let cases = [
        ("qm", "Quals 7"),
        ("ef", "Eighthfinals 2 Match 7"),
        ("qf", "Quarterfinals 2 Match 7"),
        ("sf", "Semifinals 2 Match 7"),
        ("f", "Finals Match 7"),
        ("xx", "Match 7"),
    ];
    for (level, name) in cases {
        m.comp_level = level.to_string();
        assert_eq!(m.display_name(), name);
    }
    m.comp_level = "qm".to_string();
    m.match_number = -3;
    assert_eq!(m.display_name(), "Quals -3");
}

#[test]
fn event_oprs_default_is_empty() {
    let o = EventOPRs::default();
    assert!(o.oprs.is_empty() && o.dprs.is_empty() && o.ccwms.is_empty());
}

#[test]
fn rating_lookup_uses_first_entry_or_zero() {
    let o = oprs(&[("frc1", 12.5), ("frc2", 3.0)]);
    assert_eq!(f32::from_bits(rating_for(&o.oprs, "frc2")), 3.0);
    assert_eq!(rating_for(&o.oprs, "frc9"), 0.0f32.to_bits());
}

#[test]
fn team_in_match_on_either_alliance() {
    let m = a_match("m", &["frc1", "frc2"], &["frc3"], None, None, None);
    assert!(team_is_in_match("frc2", &m));
    assert!(team_is_in_match("frc3", &m));
    assert!(!team_is_in_match("frc4", &m));
}

#[test]
fn points_come_from_the_team_alliance() {
    let mut m = a_match("m", &["frc1"], &["frc2"], Some(1), None, None);
    m.score_breakdown = Some(ScoreBreakdown {
        blue: breakdown(Some(10), Some(20), Some(30), Some(2)),
        red: breakdown(Some(1), None, Some(3), None),
    });
    assert_eq!(extract_points_for_team("frc1", &m), (10, 20, 30));
    assert_eq!(extract_points_for_team("frc2", &m), (1, 0, 3));
    assert_eq!(extract_points_for_team("frc9", &m), (1, 0, 3));
    m.score_breakdown = None;
    assert_eq!(extract_points_for_team("frc1", &m), (0, 0, 0));
}

fn sample_matches() -> Vec<Match> {
    let mut m1 = a_match("m1", &["frc1", "frc2"], &["frc3"], Some(100), None, None);
    m1.score_breakdown = Some(ScoreBreakdown {
        blue: breakdown(Some(10), Some(20), Some(5), Some(2)),
        red: breakdown(Some(4), Some(6), Some(8), Some(1)),
    });
    let mut m2 = a_match("m2", &["frc3"], &["frc1"], Some(200), None, None);
    m2.score_breakdown = Some(ScoreBreakdown {
        blue: breakdown(Some(7), Some(7), Some(7), None),
        red: breakdown(Some(2), Some(3), None, None),
    });
    // scheduled: does not count
    let mut m3 = a_match("m3", &["frc1"], &["frc2"], None, Some(300), None);
    m3.score_breakdown = Some(ScoreBreakdown {
        blue: breakdown(Some(100), Some(100), Some(100), None),
        red: breakdown(Some(100), Some(100), Some(100), None),
    });
    vec![m1, m2, m3]
}

#[test]
fn ranked_stats_sum_completed_matches() {
    let teams = vec![team("frc1", 1, "One"), team("frc2", 2, "Two"), team("frc3", 3, "Three")];
    let rankings = vec![ranking("frc3", 1, vec![2.5, 9.0], 2, 0, 0), ranking("frc1", 2, vec![1.5], 1, 1, 0)];
    let o = oprs(&[("frc1", 33.25)]);
    let s = calculate_team_stats("frc1", &teams, &rankings, &sample_matches(), &o.oprs).unwrap();
    assert_eq!(s.team_key, "frc1");
    assert_eq!(s.team_number, 1);
    assert_eq!(s.team_name, "One");
    assert_eq!(s.rank, 2);
    assert_eq!(s.total_teams, 2);
    assert_eq!(s.record, "1-1-0");
    assert_eq!(s.matches_played, 2);
    assert_eq!(f32::from_bits(s.rp_average), 1.5);
    assert_eq!((s.auto_points_total, s.teleop_points_total, s.endgame_points_total), (12, 23, 5));
    assert_eq!(f32::from_bits(s.opr), 33.25);
    assert_eq!((s.dpr, s.ccwm), (0, 0));
}

#[test]
fn ranked_stats_need_team_and_ranking() {
    let teams = vec![team("frc1", 1, "One")];
    let rankings = vec![ranking("frc2", 1, vec![1.0], 0, 0, 0)];
    assert!(calculate_team_stats("frc1", &teams, &rankings, &[], &Vec::new()).is_none());
    assert!(calculate_team_stats("frc2", &teams, &rankings, &[], &Vec::new()).is_none());
}

#[test]
fn rp_average_is_zero_without_played_matches() {
    let teams = vec![team("frc5", 5, "Five")];
    let rankings = vec![ranking("frc5", 1, vec![3.0], 0, 0, 0)];
    let s = calculate_team_stats("frc5", &teams, &rankings, &sample_matches(), &Vec::new()).unwrap();
    assert_eq!(s.matches_played, 0);
    assert_eq!(s.rp_average, 0);
    assert_eq!((s.auto_points_total, s.teleop_points_total, s.endgame_points_total), (0, 0, 0));
    let rankings = vec![ranking("frc1", -4, vec![], -1, 2, 3)];
    let teams = vec![team("frc1", 1, "One")];
    let s = calculate_team_stats("frc1", &teams, &rankings, &sample_matches(), &Vec::new()).unwrap();
    assert_eq!(s.rp_average, 0);
    assert_eq!(s.record, "-1-2-3");
    assert_eq!(s.rank, -4);
}

#[test]
fn unranked_stats_have_rank_zero() {
    let teams = vec![team("frc1", 1, "One"), team("frc2", 2, "Two")];
    let s = create_unranked_team_stats("frc2", &teams, &sample_matches(), &oprs(&[("frc2", 1.0)]).oprs);
    assert_eq!(s.rank, 0);
    assert_eq!(s.record, "0-0-0");
    assert_eq!(s.total_teams, 2);
    assert_eq!(s.matches_played, 1);
    assert_eq!(s.auto_points_total, 10);
    assert_eq!(s.rp_average, 0);
    assert_eq!(f32::from_bits(s.opr), 1.0);
    let missing = create_unranked_team_stats("frc9", &teams, &sample_matches(), &Vec::new());
    assert_eq!(missing.team_key, "");
    assert_eq!(missing.matches_played, 0);
    assert_eq!(missing.record, "");
    let d = TeamStats::default();
    assert_eq!((d.rank, d.team_number, d.total_teams), (0, 0, 0));
}

type Fields = ((String, i32, String, i32, i32, String, usize), (u32, i128, i128, i128, u32, u32, u32));

fn fields(s: &TeamStats) -> Fields {
    (
        (s.team_key.clone(), s.team_number, s.team_name.clone(), s.rank, s.total_teams, s.record.clone(), s.matches_played),
        (s.rp_average, s.auto_points_total, s.teleop_points_total, s.endgame_points_total, s.opr, s.dpr, s.ccwm),
    )
}

#[test]
fn uncounted_matches_leave_stats_unchanged() {
    let teams = vec![team("frc1", 1, "One"), team("frc2", 2, "Two"), team("frc3", 3, "Three")];
    let rankings = vec![ranking("frc1", 2, vec![1.5], 1, 1, 0)];
    let o = oprs(&[("frc1", 33.25)]);
    let base = sample_matches();
    let before = fields(&calculate_team_stats("frc1", &teams, &rankings, &base, &o.oprs).unwrap());
    let before_unranked = fields(&create_unranked_team_stats("frc1", &teams, &base, &o.oprs));
    let mut unplayed = a_match("u", &["frc1"], &["frc2"], None, Some(5), None);
    unplayed.score_breakdown = Some(ScoreBreakdown {
        blue: breakdown(Some(50), Some(50), Some(50), Some(4)),
        red: breakdown(Some(50), Some(50), Some(50), Some(4)),
    });
    let mut foreign = a_match("f", &["frc2"], &["frc3"], Some(7), None, None);
    foreign.score_breakdown = unplayed.score_breakdown.clone();
    for extra in [unplayed, foreign] {
        for k in 0..=base.len() {
            let mut more = base.clone();
            more.insert(k, extra.clone());
            let after = calculate_team_stats("frc1", &teams, &rankings, &more, &o.oprs).unwrap();
            assert_eq!(fields(&after), before);
            assert_eq!(fields(&create_unranked_team_stats("frc1", &teams, &more, &o.oprs)), before_unranked);
        }
    }
}

fn keys_of(app: &App) -> Vec<String> {
    app.data.team_stats.iter().map(|s| s.team_key.clone()).collect()
}

#[test]
fn team_list_ranked_first_then_unranked_by_number() {
    let teams = vec![
        team("frc9", 9, "Nine"),
        team("frc3", 3, "Three"),
        team("frc7", 7, "Seven"),
        team("frc1", 1, "One"),
        team("frc5", 5, "Five"),
    ];
    let rankings = vec![
        ranking("frc7", 2, vec![1.0], 1, 0, 0),
        ranking("frc9", 1, vec![2.0], 2, 0, 0),
        ranking("frc42", 3, vec![0.0], 0, 0, 0),
    ];
    let app = App::new(event("2024nyro"), teams, rankings, vec![], EventOPRs::default(), false);
    assert_eq!(keys_of(&app), vec!["frc9", "frc7", "frc1", "frc3", "frc5"]);
    let ranks: Vec<i32> = app.data.team_stats.iter().map(|s| s.rank).collect();
    assert_eq!(ranks, vec![1, 2, 0, 0, 0]);
}

#[test]
fn team_list_without_rankings_sorted_by_number_keeping_ties() {
    let teams = vec![team("b", 20, "B"), team("a", 10, "A"), team("c", 20, "C"), team("d", 5, "D")];
    let app = App::new(event("2024nyro"), teams, vec![], vec![], EventOPRs::default(), true);
    assert_eq!(keys_of(&app), vec!["d", "a", "b", "c"]);
    assert!(app.test_mode);
    assert!(matches!(&app.current_view, View::TeamList { selected_index: 0, search_query, searching: false } if search_query.is_empty()));
    assert!(app.view_history.is_empty());
}

#[test]
fn ranked_ties_keep_ranking_order() {
    let teams = vec![team("x", 1, "X"), team("y", 2, "Y"), team("z", 3, "Z")];
    let rankings = vec![ranking("z", 1, vec![], 0, 0, 0), ranking("y", 1, vec![], 0, 0, 0), ranking("x", 0, vec![], 0, 0, 0)];
    let app = App::new(event("e"), teams, rankings, vec![], EventOPRs::default(), false);
    assert_eq!(keys_of(&app), vec!["x", "z", "y"]);
}

#[test]
fn every_team_is_listed() {
    let teams: Vec<Team> = (0..12).map(|i| team(&format!("frc{}", i), (i * 7) % 5, "T")).collect();
    let rankings = vec![ranking("frc3", 4, vec![], 0, 0, 0), ranking("frc8", 1, vec![], 0, 0, 0)];
    let app = App::new(event("e"), teams.clone(), rankings, vec![], EventOPRs::default(), false);
    let listed = keys_of(&app);
    assert_eq!(listed.len(), teams.len());
    for t in &teams {
        assert!(listed.contains(&t.key));
    }
}

#[test]
fn navigation_back_undoes_opening() {
    let mut app = App::new(event("e"), vec![team("frc1", 1, "One")], vec![], vec![], EventOPRs::default(), false);
    app.navigate_to(View::TeamDetail { team_key: "frc1".to_string(), selected_match_index: 0 });
    app.navigate_to(View::MatchDetail { match_key: "m1".to_string(), selected_team_index: 2 });
    assert_eq!(app.view_history.len(), 2);
    app.navigate_back();
    assert!(matches!(&app.current_view, View::TeamDetail { team_key, .. } if team_key == "frc1"));
    app.navigate_back();
    assert!(matches!(&app.current_view, View::TeamList { selected_index: 0, .. }));
    assert!(app.view_history.is_empty());
    app.navigate_back();
    assert!(matches!(&app.current_view, View::TeamList { selected_index: 0, .. }));
}

#[test]
fn team_matches_in_chronological_order() {
    let matches = vec![
        a_match("late", &["frc1"], &[], Some(500), None, None),
        a_match("nobody", &["frc2"], &[], Some(1), None, None),
        a_match("untimed_a", &[], &["frc1"], None, None, None),
        a_match("early", &[], &["frc1"], None, Some(50), Some(999)),
        a_match("planned", &["frc1"], &[], None, None, Some(300)),
        a_match("untimed_b", &["frc1"], &[], None, None, None),
    ];
    let app = App::new(event("e"), vec![team("frc1", 1, "One")], vec![], matches, EventOPRs::default(), false);
    let got: Vec<String> = app.get_team_matches("frc1").iter().map(|m| m.key.clone()).collect();
    assert_eq!(got, vec!["early", "planned", "late", "untimed_a", "untimed_b"]);
    assert!(app.get_team_matches("frc77").is_empty());
}

#[test]
fn lookups_find_first_or_nothing() {
    let matches = vec![a_match("m1", &["frc1"], &[], None, None, None), a_match("m2", &[], &[], None, None, None)];
    let app = App::new(event("e"), vec![team("frc1", 1, "One")], vec![], matches, EventOPRs::default(), false);
    assert_eq!(app.get_match("m2").unwrap().key, "m2");
    assert!(app.get_match("m3").is_none());
    assert_eq!(app.get_team("frc1").unwrap().nickname, "One");
    assert!(app.get_team("frc2").is_none());
    assert_eq!(app.get_team_stats("frc1").unwrap().team_number, 1);
    assert!(app.get_team_stats("frc2").is_none());
}

#[test]
fn loading_without_teams_is_an_error() {
    let r = App::from_loaded(event("e"), vec![], vec![], vec![], EventOPRs::default(), false);
    match r {
        Err(e) => {
            assert!(matches!(e, LoadError::NoTeams));
            assert_eq!(e.message(), "No teams registered for this event yet.");
        },
        Ok(_) => panic!("expected an error"),
    }
    assert!(App::from_loaded(event("e"), vec![team("frc1", 1, "One")], vec![], vec![], EventOPRs::default(), false).is_ok());
}
