//! The event data: events, teams, rankings, matches and ratings, as the
//! library holds them.
//!
//! Numbers that the data source gives as 32-bit floats (ranking sort orders
//! and the OPR/DPR/CCWM ratings) are carried here by their IEEE-754 bit
//! patterns (`f32::to_bits`); the library moves them and never computes
//! with them. Score breakdown fields are held as the integer values they are.

use vstd::prelude::*;
use crate::search::{first_index, lemma_first_index_absent, lemma_first_index_found};
use crate::text::{int_text, push_int, str_eq};

verus! {

/// A competition event.
#[derive(Debug, Clone)]
pub struct Event {
    pub key: String,
    pub name: String,
    pub event_code: String,
    pub event_type: i32,
    pub start_date: String,
    pub end_date: String,
    pub year: i32,
    pub city: Option<String>,
    pub state_prov: Option<String>,
    pub country: Option<String>,
    pub timezone: Option<String>,
}

/// A team registered at the event.
#[derive(Debug, Clone)]
pub struct Team {
    pub key: String,
    pub team_number: i32,
    pub nickname: String,
    pub name: String,
    pub city: Option<String>,
    pub state_prov: Option<String>,
    pub country: Option<String>,
}

/// Wins, losses and ties.
#[derive(Debug, Clone, Copy)]
pub struct WLTRecord {
    pub wins: i32,
    pub losses: i32,
    pub ties: i32,
}

/// A team's place in the event ranking. `sort_orders` holds the bit
/// patterns of the 32-bit float sort orders.
#[derive(Debug, Clone)]
pub struct Ranking {
    pub rank: i32,
    pub team_key: String,
    pub sort_orders: Vec<u32>,
    pub record: WLTRecord,
    pub matches_played: i32,
}

/// One alliance of a match.
#[derive(Debug, Clone)]
pub struct Alliance {
    pub score: i32,
    pub team_keys: Vec<String>,
}

/// Both alliances of a match.
#[derive(Debug, Clone)]
pub struct MatchAlliances {
    pub blue: Alliance,
    pub red: Alliance,
}

/// The fields of one alliance's score breakdown that the library reads:
/// each holds the field's integer value, or `None` where the field is
/// missing or not an integer.
#[derive(Debug, Clone, Copy)]
pub struct AllianceBreakdown {
    pub auto_points: Option<i64>,
    pub teleop_points: Option<i64>,
    pub endgame_points: Option<i64>,
    pub rp: Option<i64>,
}

/// Score breakdown of both alliances.
#[derive(Debug, Clone, Copy)]
pub struct ScoreBreakdown {
    pub blue: AllianceBreakdown,
    pub red: AllianceBreakdown,
}

/// A match of the event.
#[derive(Debug, Clone)]
pub struct Match {
    pub key: String,
    pub comp_level: String,
    pub set_number: i32,
    pub match_number: i32,
    pub alliances: MatchAlliances,
    pub winning_alliance: Option<String>,
    pub time: Option<i64>,
    pub actual_time: Option<i64>,
    pub predicted_time: Option<i64>,
    pub score_breakdown: Option<ScoreBreakdown>,
}

/// Ratings of the teams, each a team key with the bit pattern of its
/// 32-bit float rating.
#[derive(Debug, Clone)]
pub struct EventOPRs {
    pub oprs: Vec<(String, u32)>,
    pub dprs: Vec<(String, u32)>,
    pub ccwms: Vec<(String, u32)>,
}

impl Default for EventOPRs {
    fn default() -> (r: EventOPRs)
        ensures
            r.oprs@.len() == 0,
            r.dprs@.len() == 0,
            r.ccwms@.len() == 0,
    {
        EventOPRs { oprs: Vec::new(), dprs: Vec::new(), ccwms: Vec::new() }
    }
}

/// Where a match stands.
#[derive(Debug, Clone)]
pub enum MatchStatus {
    Completed { blue_score: i32, red_score: i32, winner: Option<String> },
    Scheduled { time: Option<i64> },
}

/// A match is completed once it has an actual time; a scheduled match
/// shows its predicted time, or else its planned time.
pub open spec fn status_of(m: Match) -> MatchStatus {
    if m.actual_time is Some {
        MatchStatus::Completed {
            blue_score: m.alliances.blue.score,
            red_score: m.alliances.red.score,
            winner: m.winning_alliance,
        }
    } else {
        MatchStatus::Scheduled {
            time: if m.predicted_time is Some {
                m.predicted_time
            } else {
                m.time
            },
        }
    }
}

/// The name under which a match is shown.
pub open spec fn display_name_text(level: Seq<char>, set_number: i32, match_number: i32) -> Seq<char> {
    if level == "qm"@ {
        "Quals "@ + int_text(match_number as int)
    } else if level == "ef"@ {
        "Eighthfinals "@ + int_text(set_number as int) + " Match "@ + int_text(match_number as int)
    } else if level == "qf"@ {
        "Quarterfinals "@ + int_text(set_number as int) + " Match "@ + int_text(match_number as int)
    } else if level == "sf"@ {
        "Semifinals "@ + int_text(set_number as int) + " Match "@ + int_text(match_number as int)
    } else if level == "f"@ {
        "Finals Match "@ + int_text(match_number as int)
    } else {
        "Match "@ + int_text(match_number as int)
    }
}

/// Two matches hold the same data.
pub open spec fn same_match(a: Match, b: Match) -> bool {
    &&& a.key == b.key
    &&& a.comp_level == b.comp_level
    &&& a.set_number == b.set_number
    &&& a.match_number == b.match_number
    &&& a.alliances.blue.score == b.alliances.blue.score
    &&& a.alliances.blue.team_keys@ == b.alliances.blue.team_keys@
    &&& a.alliances.red.score == b.alliances.red.score
    &&& a.alliances.red.team_keys@ == b.alliances.red.team_keys@
    &&& a.winning_alliance == b.winning_alliance
    &&& a.time == b.time
    &&& a.actual_time == b.actual_time
    &&& a.predicted_time == b.predicted_time
    &&& a.score_breakdown == b.score_breakdown
}

/// Two sequences of matches hold the same data, item by item.
pub open spec fn same_matches(a: Seq<Match>, b: Seq<Match>) -> bool {
    a.len() == b.len() && forall|i: int| 0 <= i < a.len() ==> same_match(#[trigger] a[i], b[i])
}

/// A copy of a string.
pub fn copy_string(s: &String) -> (r: String)
    ensures
        r == *s,
{
    s.clone()
}

/// A copy of an optional string.
pub fn copy_opt_string(s: &Option<String>) -> (r: Option<String>)
    ensures
        r == *s,
{
    match s {
        Some(t) => Some(t.clone()),
        None => None,
    }
}

/// A copy of a list of strings.
pub fn copy_strings(v: &Vec<String>) -> (r: Vec<String>)
    ensures
        r@ == v@,
{
    let mut r: Vec<String> = Vec::new();
    for i in 0..v.len()
        invariant
            r@ == v@.take(i as int),
    {
        r.push(v[i].clone());
        assert(v@.take(i + 1) =~= v@.take(i as int).push(v@[i as int]));
    }
    assert(v@.take(v@.len() as int) =~= v@);
    r
}

impl Match {
    /// Whether the match is completed, with its scores and winner, or
    /// scheduled, with its expected time.
    pub fn status(&self) -> (r: MatchStatus)
        ensures
            r == status_of(*self),
    {
        if self.actual_time.is_some() {
            MatchStatus::Completed {
                blue_score: self.alliances.blue.score,
                red_score: self.alliances.red.score,
                winner: copy_opt_string(&self.winning_alliance),
            }
        } else {
            MatchStatus::Scheduled {
                time: match self.predicted_time {
                    Some(t) => Some(t),
                    None => self.time,
                },
            }
        }
    }

    /// The name under which the match is shown, such as "Quals 12" or
    /// "Semifinals 2 Match 1".
    pub fn display_name(&self) -> (r: String)
        ensures
            r@ == display_name_text(self.comp_level@, self.set_number, self.match_number),
    {
        let level = self.comp_level.as_str();
        proof {
            reveal_strlit("qm");
            reveal_strlit("ef");
            reveal_strlit("qf");
            reveal_strlit("sf");
            reveal_strlit("f");
            reveal_strlit("Quals ");
            reveal_strlit("Eighthfinals ");
            reveal_strlit("Quarterfinals ");
            reveal_strlit("Semifinals ");
            reveal_strlit(" Match ");
            reveal_strlit("Finals Match ");
            reveal_strlit("Match ");
        }
        let mut s = String::new();
        if str_eq(level, "qm") {
            s.append("Quals ");
            push_int(&mut s, self.match_number as i64);
        } else if str_eq(level, "ef") || str_eq(level, "qf") || str_eq(level, "sf") {
            if str_eq(level, "ef") {
                s.append("Eighthfinals ");
            } else if str_eq(level, "qf") {
                s.append("Quarterfinals ");
            } else {
                s.append("Semifinals ");
            }
            push_int(&mut s, self.set_number as i64);
            s.append(" Match ");
            push_int(&mut s, self.match_number as i64);
        } else if str_eq(level, "f") {
            s.append("Finals Match ");
            push_int(&mut s, self.match_number as i64);
        } else {
            s.append("Match ");
            push_int(&mut s, self.match_number as i64);
        }
        assert(s@ =~= display_name_text(self.comp_level@, self.set_number, self.match_number));
        s
    }

    /// A copy of the match.
    pub fn duplicate(&self) -> (r: Match)
        ensures
            same_match(r, *self),
    {
        Match {
            key: copy_string(&self.key),
            comp_level: copy_string(&self.comp_level),
            set_number: self.set_number,
            match_number: self.match_number,
            alliances: MatchAlliances {
                blue: Alliance {
                    score: self.alliances.blue.score,
                    team_keys: copy_strings(&self.alliances.blue.team_keys),
                },
                red: Alliance {
                    score: self.alliances.red.score,
                    team_keys: copy_strings(&self.alliances.red.team_keys),
                },
            },
            winning_alliance: copy_opt_string(&self.winning_alliance),
            time: self.time,
            actual_time: self.actual_time,
            predicted_time: self.predicted_time,
            score_breakdown: self.score_breakdown,
        }
    }
}

/// The entry is for `key`.
pub open spec fn entry_has_key(key: Seq<char>) -> spec_fn((String, u32)) -> bool {
    |e: (String, u32)| e.0@ == key
}

/// The rating recorded for `key`: the first entry with that key, or the
/// bit pattern of 0.0 when there is none.
pub open spec fn rating_of(entries: Seq<(String, u32)>, key: Seq<char>) -> u32 {
    let i = first_index(entries, entry_has_key(key));
    if i < 0 {
        0
    } else {
        entries[i].1
    }
}

/// Looks up the rating of a team.
pub fn rating_for(entries: &Vec<(String, u32)>, key: &str) -> (r: u32)
    ensures
        r == rating_of(entries@, key@),
{
    let ghost pred = entry_has_key(key@);
    for i in 0..entries.len()
        invariant
            pred == entry_has_key(key@),
            forall|j: int| 0 <= j < i ==> !pred(#[trigger] entries@[j]),
    {
        if str_eq(entries[i].0.as_str(), key) {
            proof {
                lemma_first_index_found(entries@, pred, i as int);
            }
            return entries[i].1;
        }
    }
    proof {
        lemma_first_index_absent(entries@, pred);
    }
    0
}

/// A match is completed exactly when it has an actual time; a completed
/// match carries both alliances' scores and the winner, and a scheduled one
/// shows its predicted time when there is one and its planned time otherwise.
pub proof fn lemma_status_meaning(m: Match)
    ensures
        (status_of(m) is Completed) <==> m.actual_time is Some,
        status_of(m) matches MatchStatus::Completed { blue_score, red_score, winner } ==> blue_score
            == m.alliances.blue.score && red_score == m.alliances.red.score && winner == m.winning_alliance,
        status_of(m) matches MatchStatus::Scheduled { time } ==> (m.predicted_time is Some ==> time
            == m.predicted_time) && (m.predicted_time is None ==> time == m.time),
{
}

/// A team's rating is the value of the first entry under its key, and the
/// bit pattern of 0.0 when no entry has its key.
pub proof fn lemma_rating_lookup(entries: Seq<(String, u32)>, key: Seq<char>)
    ensures
        forall|i: int|
            0 <= i < entries.len() && (#[trigger] entries[i]).0@ == key && (forall|j: int|
                0 <= j < i ==> (#[trigger] entries[j]).0@ != key) ==> rating_of(entries, key) == entries[i].1,
        (forall|j: int| 0 <= j < entries.len() ==> (#[trigger] entries[j]).0@ != key) ==> rating_of(entries, key) == 0,
{
    assert forall|i: int|
        0 <= i < entries.len() && (#[trigger] entries[i]).0@ == key && (forall|j: int|
            0 <= j < i ==> (#[trigger] entries[j]).0@ != key) implies rating_of(entries, key) == entries[i].1 by {
        lemma_first_index_found(entries, entry_has_key(key), i);
    }
    if forall|j: int| 0 <= j < entries.len() ==> (#[trigger] entries[j]).0@ != key {
        lemma_first_index_absent(entries, entry_has_key(key));
    }
}

/// Qualification and final matches are named by their match number alone,
/// playoff rounds by set and match number, and any other level as a plain
/// match; the match number is always the last part of the name.
pub proof fn lemma_display_names(set_number: i32, match_number: i32, level: Seq<char>)
    ensures
        display_name_text("qm"@, set_number, match_number) == "Quals "@ + int_text(match_number as int),
        display_name_text("ef"@, set_number, match_number) == "Eighthfinals "@ + int_text(set_number as int) + " Match "@
            + int_text(match_number as int),
        display_name_text("qf"@, set_number, match_number) == "Quarterfinals "@ + int_text(set_number as int)
            + " Match "@ + int_text(match_number as int),
        display_name_text("sf"@, set_number, match_number) == "Semifinals "@ + int_text(set_number as int) + " Match "@
            + int_text(match_number as int),
        display_name_text("f"@, set_number, match_number) == "Finals Match "@ + int_text(match_number as int),
        level != "qm"@ && level != "ef"@ && level != "qf"@ && level != "sf"@ && level != "f"@ ==> display_name_text(
            level,
            set_number,
            match_number,
        ) == "Match "@ + int_text(match_number as int),
        exists|p: Seq<char>| display_name_text(level, set_number, match_number) == p + int_text(match_number as int),
{
    reveal_strlit("qm");
    reveal_strlit("ef");
    reveal_strlit("qf");
    reveal_strlit("sf");
    reveal_strlit("f");
    assert(("ef"@)[0] != ("qm"@)[0]);
    assert(("qf"@)[1] != ("qm"@)[1] && ("qf"@)[0] != ("ef"@)[0]);
    assert(("sf"@)[0] != ("qm"@)[0] && ("sf"@)[0] != ("ef"@)[0] && ("sf"@)[0] != ("qf"@)[0]);
    let n = display_name_text(level, set_number, match_number);
    let num = int_text(match_number as int);
    let p = n.take(n.len() - num.len());
    if level == "qm"@ {
        assert(n =~= "Quals "@ + num);
    } else if level == "ef"@ {
        assert(n =~= ("Eighthfinals "@ + int_text(set_number as int) + " Match "@) + num);
    } else if level == "qf"@ {
        assert(n =~= ("Quarterfinals "@ + int_text(set_number as int) + " Match "@) + num);
    } else if level == "sf"@ {
        assert(n =~= ("Semifinals "@ + int_text(set_number as int) + " Match "@) + num);
    } else if level == "f"@ {
        assert(n =~= "Finals Match "@ + num);
    } else {
        assert(n =~= "Match "@ + num);
    }
    assert(n =~= p + num);
}

} // verus!
