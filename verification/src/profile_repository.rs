//! The single user profile and its storage format.  One line of fixed
//! traits, then one line per daily snapshot:
//!
//! ```text
//! PROFILE|gender|height|YYYY-MM-DD|method
//! DAILY|YYYY-MM-DD|weight|activity
//! ```
//!
//! Genders are written M, F or O, and any other text reads back as O;
//! activity levels are written S, L, M, V or E, and any other text
//! reads back as S.  Loading takes the last PROFILE line, which resets
//! the snapshots, and merges following DAILY lines into it by date;
//! DAILY lines before any PROFILE line are dropped.

use vstd::prelude::*;
use vstd::string::*;

use crate::date::{parse_date, parse_date_spec, Date};
use crate::food::{is_name_ok, name_ok};
use crate::profile::{
    daily_index, storable_profile, ActivityLevel, DailyProfile, Gender, UserProfile,
    UserProfileModel,
};
use crate::text::{
    amount_digits, join_spec, lemma_amount_avoids, lemma_amount_round_trip, lemma_split_of_join,
    parse_amount, parse_amount_spec, push_amount, split_char, split_spec, views_of,
};

verus! {

pub open spec fn gender_text(g: Gender) -> Seq<char> {
    match g {
        Gender::Male => "M"@,
        Gender::Female => "F"@,
        Gender::Other => "O"@,
    }
}

/// How a stored gender field reads back: M and F name themselves, and
/// anything else reads as O.
pub open spec fn gender_of(t: Seq<char>) -> Gender {
    if t == "M"@ {
        Gender::Male
    } else if t == "F"@ {
        Gender::Female
    } else {
        Gender::Other
    }
}

pub open spec fn activity_text(a: ActivityLevel) -> Seq<char> {
    match a {
        ActivityLevel::Sedentary => "S"@,
        ActivityLevel::LightlyActive => "L"@,
        ActivityLevel::ModeratelyActive => "M"@,
        ActivityLevel::VeryActive => "V"@,
        ActivityLevel::ExtremelyActive => "E"@,
    }
}

/// How a stored activity field reads back: the five letters name
/// themselves, and anything else reads as S.
pub open spec fn activity_of(t: Seq<char>) -> ActivityLevel {
    if t == "S"@ {
        ActivityLevel::Sedentary
    } else if t == "L"@ {
        ActivityLevel::LightlyActive
    } else if t == "M"@ {
        ActivityLevel::ModeratelyActive
    } else if t == "V"@ {
        ActivityLevel::VeryActive
    } else if t == "E"@ {
        ActivityLevel::ExtremelyActive
    } else {
        ActivityLevel::Sedentary
    }
}

fn gender_letter(g: Gender) -> (r: &'static str)
    ensures
        r@ == gender_text(g),
{
    match g {
        Gender::Male => "M",
        Gender::Female => "F",
        Gender::Other => "O",
    }
}

fn gender_of_text(t: &String) -> (r: Gender)
    ensures
        r == gender_of(t@),
{
    if *t == String::from_str("M") {
        Gender::Male
    } else if *t == String::from_str("F") {
        Gender::Female
    } else {
        Gender::Other
    }
}

fn activity_letter(a: ActivityLevel) -> (r: &'static str)
    ensures
        r@ == activity_text(a),
{
    match a {
        ActivityLevel::Sedentary => "S",
        ActivityLevel::LightlyActive => "L",
        ActivityLevel::ModeratelyActive => "M",
        ActivityLevel::VeryActive => "V",
        ActivityLevel::ExtremelyActive => "E",
    }
}

fn activity_of_text(t: &String) -> (r: ActivityLevel)
    ensures
        r == activity_of(t@),
{
    if *t == String::from_str("S") {
        ActivityLevel::Sedentary
    } else if *t == String::from_str("L") {
        ActivityLevel::LightlyActive
    } else if *t == String::from_str("M") {
        ActivityLevel::ModeratelyActive
    } else if *t == String::from_str("V") {
        ActivityLevel::VeryActive
    } else if *t == String::from_str("E") {
        ActivityLevel::ExtremelyActive
    } else {
        ActivityLevel::Sedentary
    }
}

/// The stored line for the profile's fixed traits.
pub open spec fn profile_line_spec(m: UserProfileModel) -> Seq<char> {
    join_spec(
        seq![
            "PROFILE"@,
            gender_text(m.gender),
            amount_digits(m.height as nat),
            m.birth_date.digits(),
            m.calculation_method,
        ],
        '|',
    )
}

/// The stored line for one daily snapshot.
pub open spec fn daily_line_spec(dp: DailyProfile) -> Seq<char> {
    join_spec(
        seq![
            "DAILY"@,
            dp.date.digits(),
            amount_digits(dp.weight as nat),
            activity_text(dp.activity_level),
        ],
        '|',
    )
}

/// Renders the fixed-traits line.
pub fn profile_line(p: &UserProfile) -> (r: String)
    requires
        p.birth_date.wf(),
    ensures
        r@ == profile_line_spec(p@),
{
    let mut s = String::from_str("PROFILE");
    s.append("|");
    s.append(gender_letter(p.gender));
    s.append("|");
    push_amount(&mut s, p.height);
    s.append("|");
    p.birth_date.push_onto(&mut s);
    s.append("|");
    s.append(p.calculation_method.as_str());
    proof {
        reveal_strlit("|");
        crate::food_repository::lemma_join5(
            "PROFILE"@,
            gender_text(p.gender),
            amount_digits(p@.height as nat),
            p.birth_date.digits(),
            p@.calculation_method,
            '|',
        );
        assert(s@ =~= profile_line_spec(p@));
    }
    s
}

/// Renders one snapshot line.
pub fn daily_line(dp: &DailyProfile) -> (r: String)
    requires
        dp.date.wf(),
    ensures
        r@ == daily_line_spec(*dp),
{
    let mut s = String::from_str("DAILY");
    s.append("|");
    dp.date.push_onto(&mut s);
    s.append("|");
    push_amount(&mut s, dp.weight);
    s.append("|");
    s.append(activity_letter(dp.activity_level));
    proof {
        reveal_strlit("|");
        crate::log_repository::lemma_join4(
            "DAILY"@,
            dp.date.digits(),
            amount_digits(dp.weight as nat),
            activity_text(dp.activity_level),
            '|',
        );
        assert(s@ =~= daily_line_spec(*dp));
    }
    s
}

/// What one stored line means.
pub enum ProfileLine {
    /// A fixed-traits line: the profile it opens, with no snapshots.
    Traits(UserProfile),
    /// A snapshot line.
    Daily(DailyProfile),
}

/// Parses the fixed-traits line shape.
pub open spec fn parse_profile_line_spec(s: Seq<char>) -> Option<UserProfileModel> {
    let parts = split_spec(s, '|');
    if parts.len() != 5 || parts[0] != "PROFILE"@ {
        None
    } else {
        match parse_amount_spec(parts[2]) {
            None => None,
            Some(height) => match parse_date_spec(parts[3]) {
                None => None,
                Some(birth) => {
                    if name_ok(parts[4]) {
                        Some(
                            UserProfileModel {
                                gender: gender_of(parts[1]),
                                height,
                                birth_date: birth,
                                daily_profiles: Seq::empty(),
                                calculation_method: parts[4],
                            },
                        )
                    } else {
                        None
                    }
                },
            },
        }
    }
}

/// Parses the snapshot line shape.
pub open spec fn parse_daily_line_spec(s: Seq<char>) -> Option<DailyProfile> {
    let parts = split_spec(s, '|');
    if parts.len() != 4 || parts[0] != "DAILY"@ {
        None
    } else {
        match parse_date_spec(parts[1]) {
            None => None,
            Some(date) => match parse_amount_spec(parts[2]) {
                None => None,
                Some(weight) => Some(
                    DailyProfile { date, weight, activity_level: activity_of(parts[3]) },
                ),
            },
        }
    }
}

/// Parses one stored line as either shape.
pub fn parse_profile_line(line: &str) -> (r: Option<ProfileLine>)
    ensures
        match r {
            Some(ProfileLine::Traits(p)) => parse_profile_line_spec(line@) == Some(p@)
                && storable_profile(p@),
            Some(ProfileLine::Daily(dp)) => parse_profile_line_spec(line@) is None
                && parse_daily_line_spec(line@) == Some(dp) && dp.date.wf(),
            None => parse_profile_line_spec(line@) is None && parse_daily_line_spec(line@)
                is None,
        },
{
    let parts = split_char(line, '|');
    if parts.len() == 5 && parts[0] == String::from_str("PROFILE") {
        let height = match parse_amount(parts[2].as_str()) {
            Some(v) => v,
            None => {
                proof {
                    lemma_profile_daily_distinct(line@);
                }
                return None;
            },
        };
        let birth = match parse_date(parts[3].as_str()) {
            Some(d) => d,
            None => {
                proof {
                    lemma_profile_daily_distinct(line@);
                }
                return None;
            },
        };
        if !is_name_ok(parts[4].as_str()) {
            proof {
                lemma_profile_daily_distinct(line@);
            }
            return None;
        }
        let gender = gender_of_text(&parts[1]);
        let p = UserProfile {
            gender,
            height,
            birth_date: birth,
            daily_profiles: Vec::new(),
            calculation_method: parts[4].clone(),
        };
        proof {
            assert(p@.daily_profiles =~= Seq::<DailyProfile>::empty());
            assert(p@ =~~= parse_profile_line_spec(line@).unwrap());
        }
        Some(ProfileLine::Traits(p))
    } else if parts.len() == 4 && parts[0] == String::from_str("DAILY") {
        proof {
            lemma_profile_daily_distinct(line@);
        }
        let date = match parse_date(parts[1].as_str()) {
            Some(d) => d,
            None => {
                return None;
            },
        };
        let weight = match parse_amount(parts[2].as_str()) {
            Some(v) => v,
            None => {
                return None;
            },
        };
        let activity_level = activity_of_text(&parts[3]);
        Some(ProfileLine::Daily(DailyProfile { date, weight, activity_level }))
    } else {
        proof {
            lemma_profile_daily_distinct(line@);
        }
        None
    }
}

/// No line satisfies both shapes: they differ in field count.
proof fn lemma_profile_daily_distinct(s: Seq<char>)
    ensures
        parse_profile_line_spec(s) is Some ==> parse_daily_line_spec(s) is None,
        parse_daily_line_spec(s) is Some ==> parse_profile_line_spec(s) is None,
{
}

/// Merges one snapshot, replacing any snapshot with the same date.
pub open spec fn merge_daily(m: UserProfileModel, dp: DailyProfile) -> UserProfileModel {
    let i = daily_index(m.daily_profiles, dp.date);
    UserProfileModel {
        daily_profiles: if i < m.daily_profiles.len() {
            m.daily_profiles.update(i, dp)
        } else {
            m.daily_profiles.push(dp)
        },
        ..m
    }
}

/// What loading a list of lines builds: the last fixed-traits line
/// starts the profile over; snapshot lines merge into it by date;
/// everything else is skipped.
pub open spec fn fold_profile_lines(lines: Seq<Seq<char>>) -> Option<UserProfileModel>
    decreases lines.len(),
{
    if lines.len() == 0 {
        None
    } else {
        let prev = fold_profile_lines(lines.drop_last());
        match parse_profile_line_spec(lines.last()) {
            Some(p) => Some(p),
            None => match parse_daily_line_spec(lines.last()) {
                Some(dp) => match prev {
                    Some(p) => Some(merge_daily(p, dp)),
                    None => None,
                },
                None => prev,
            },
        }
    }
}

/// The single user profile, or none before one is created.
pub struct ProfileRepository {
    pub profile: Option<UserProfile>,
}

impl ProfileRepository {
    pub open spec fn model(&self) -> Option<UserProfileModel> {
        match self.profile {
            Some(p) => Some(p@),
            None => None,
        }
    }

    pub open spec fn wf(&self) -> bool {
        match self.model() {
            Some(m) => storable_profile(m),
            None => true,
        }
    }

    /// An empty repository, before any profile exists.
    pub fn new() -> (r: ProfileRepository)
        ensures
            r.wf(),
            r.model() is None,
    {
        ProfileRepository { profile: None }
    }

    /// The profile, if one has been created.
    pub fn get_profile(&self) -> (r: Option<&UserProfile>)
        ensures
            match r {
                Some(p) => self.model() == Some(p@),
                None => self.model() is None,
            },
    {
        match &self.profile {
            Some(p) => Some(p),
            None => None,
        }
    }

    /// Replaces the profile outright.
    pub fn set_profile(&mut self, profile: UserProfile)
        requires
            storable_profile(profile@),
        ensures
            final(self).wf(),
            final(self).model() == Some(profile@),
    {
        self.profile = Some(profile);
    }

    /// Merges a snapshot into the profile; refused while none exists.
    pub fn add_or_update_daily_profile(&mut self, dp: DailyProfile) -> (r: Result<(), String>)
        requires
            old(self).wf(),
            dp.date.wf(),
        ensures
            final(self).wf(),
            old(self).model() is Some ==> r is Ok && final(self).model() == Some(
                merge_daily(old(self).model().unwrap(), dp),
            ),
            old(self).model() is None ==> r is Err && final(self).model() is None
                && r.unwrap_err()@ == "No user profile exists"@,
    {
        match &mut self.profile {
            Some(p) => {
                p.add_or_update_daily_profile(dp);
                proof {
                    crate::profile::lemma_daily_index(
                        old(self).model().unwrap().daily_profiles,
                        dp.date,
                    );
                    assert(self.model().unwrap() =~~= merge_daily(old(self).model().unwrap(), dp));
                }
                Ok(())
            },
            None => Err(String::from_str("No user profile exists")),
        }
    }

    /// Discards the snapshot for `date`, when one exists.
    pub fn remove_daily_profile(&mut self, date: Date)
        requires
            old(self).wf(),
        ensures
            final(self).wf(),
            old(self).model() is Some ==> final(self).model() == Some(
                UserProfileModel {
                    daily_profiles: crate::profile::drop_date(
                        old(self).model().unwrap().daily_profiles,
                        date,
                    ),
                    ..old(self).model().unwrap()
                },
            ),
            old(self).model() is None ==> final(self).model() is None,
    {
        match &mut self.profile {
            Some(p) => {
                p.remove_daily_profile(date);
                proof {
                    lemma_drop_date_keeps(old(self).model().unwrap().daily_profiles, date);
                    assert(self.model().unwrap() =~~= (UserProfileModel {
                        daily_profiles: crate::profile::drop_date(
                            old(self).model().unwrap().daily_profiles,
                            date,
                        ),
                        ..old(self).model().unwrap()
                    }));
                }
            },
            None => {},
        }
    }

    /// Renders the profile: its fixed-traits line, then one line per
    /// snapshot; nothing when no profile exists.
    pub fn export_lines(&self) -> (r: Vec<String>)
        requires
            self.wf(),
        ensures
            match self.model() {
                None => r@.len() == 0,
                Some(m) => views_of(r@) =~= profile_lines_spec(m),
            },
    {
        let mut out: Vec<String> = Vec::new();
        let p = match &self.profile {
            Some(p) => p,
            None => {
                return out;
            },
        };
        out.push(profile_line(p));
        let mut i: usize = 0;
        while i < p.daily_profiles.len()
            invariant
                0 <= i <= p.daily_profiles@.len(),
                self.wf(),
                self.profile == Some(*p),
                out@.len() == 1 + i,
                out@[0]@ == profile_line_spec(p@),
                forall|j: int|
                    1 <= j < out@.len() ==> (#[trigger] out@[j])@ == daily_line_spec(
                        p@.daily_profiles[j - 1],
                    ),
            decreases p.daily_profiles@.len() - i,
        {
            proof {
                assert(p@.daily_profiles[i as int].date.wf());
            }
            out.push(daily_line(&p.daily_profiles[i]));
            i = i + 1;
        }
        proof {
            assert(views_of(out@) =~= profile_lines_spec(p@));
        }
        out
    }

    /// Rebuilds the profile from stored lines, as `fold_profile_lines`
    /// describes.
    pub fn import_lines(lines: &Vec<String>) -> (r: ProfileRepository)
        ensures
            r.wf(),
            r.model() == fold_profile_lines(views_of(lines@)),
    {
        let ghost lviews = views_of(lines@);
        let mut repo = ProfileRepository::new();
        let mut i: usize = 0;
        while i < lines.len()
            invariant
                0 <= i <= lines@.len(),
                lviews == views_of(lines@),
                repo.wf(),
                repo.model() == fold_profile_lines(lviews.take(i as int)),
            decreases lines@.len() - i,
        {
            proof {
                assert(lviews.take(i + 1).drop_last() =~= lviews.take(i as int));
                assert(lviews.take(i + 1).last() == lviews[i as int]);
            }
            match parse_profile_line(lines[i].as_str()) {
                Some(ProfileLine::Traits(p)) => {
                    repo.set_profile(p);
                },
                Some(ProfileLine::Daily(dp)) => {
                    match repo.add_or_update_daily_profile(dp) {
                        Ok(()) => {},
                        Err(_) => {},
                    }
                },
                None => {},
            }
            i = i + 1;
        }
        proof {
            assert(lviews.take(lviews.len() as int) =~= lviews);
        }
        repo
    }
}

/// Formatting then parsing the fixed-traits line returns the same
/// profile, less its snapshots, which travel on their own lines.
pub proof fn lemma_profile_line_round_trip(m: UserProfileModel)
    requires
        m.birth_date.wf(),
        name_ok(m.calculation_method),
    ensures
        parse_profile_line_spec(profile_line_spec(m)) == Some(
            UserProfileModel { daily_profiles: Seq::empty(), ..m },
        ),
{
    let parts5 = seq![
        "PROFILE"@,
        gender_text(m.gender),
        amount_digits(m.height as nat),
        m.birth_date.digits(),
        m.calculation_method,
    ];
    let line = profile_line_spec(m);
    reveal_strlit("PROFILE");
    reveal_strlit("M");
    reveal_strlit("F");
    reveal_strlit("O");
    lemma_amount_avoids(m.height as nat, '|');
    crate::log_repository::lemma_date_digits_avoid(m.birth_date, '|');
    assert forall|i: int, j: int|
        0 <= i < parts5.len() && 0 <= j < parts5[i].len() implies #[trigger] parts5[i][j]
        != '|' by {
        if i == 0 {
            assert(parts5[i] == "PROFILE"@);
            lemma_tag_char_not_pipe(j);
        } else if i == 1 {
            assert(parts5[i] == gender_text(m.gender));
            assert(parts5[i].len() == 1);
            assert(parts5[i][0] != '|');
        } else if i == 2 {
            assert(parts5[i] == amount_digits(m.height as nat));
        } else if i == 3 {
            assert(parts5[i] == m.birth_date.digits());
        } else {
            assert(parts5[i] == m.calculation_method);
        }
    }
    lemma_split_of_join(parts5, '|');
    assert(split_spec(line, '|') =~~= parts5);
    lemma_amount_round_trip(m.height);
    crate::date::lemma_date_round_trip(m.birth_date);
    assert(gender_of(gender_text(m.gender)) == m.gender) by {
        assert("M"@ != "F"@) by {
            assert("M"@[0] != "F"@[0]);
        }
        assert("O"@ != "M"@) by {
            assert("O"@[0] != "M"@[0]);
        }
        assert("O"@ != "F"@) by {
            assert("O"@[0] != "F"@[0]);
        }
    }
    assert(parse_profile_line_spec(line).unwrap() =~~= (UserProfileModel {
        daily_profiles: Seq::empty(),
        ..m
    }));
}

/// Each character of "PROFILE" differs from the field separator.
proof fn lemma_tag_char_not_pipe(j: int)
    requires
        0 <= j < "PROFILE"@.len(),
    ensures
        "PROFILE"@[j] != '|',
{
    reveal_strlit("PROFILE");
    if j == 0 {
    } else if j == 1 {
    } else if j == 2 {
    } else if j == 3 {
    } else if j == 4 {
    } else if j == 5 {
    } else {
        assert(j == 6);
    }
}

/// Formatting then parsing a snapshot line returns the same snapshot.
pub proof fn lemma_daily_line_round_trip(dp: DailyProfile)
    requires
        dp.date.wf(),
    ensures
        parse_daily_line_spec(daily_line_spec(dp)) == Some(dp),
{
    let parts4 = seq![
        "DAILY"@,
        dp.date.digits(),
        amount_digits(dp.weight as nat),
        activity_text(dp.activity_level),
    ];
    let line = daily_line_spec(dp);
    reveal_strlit("DAILY");
    reveal_strlit("S");
    reveal_strlit("L");
    reveal_strlit("M");
    reveal_strlit("V");
    reveal_strlit("E");
    lemma_amount_avoids(dp.weight as nat, '|');
    crate::log_repository::lemma_date_digits_avoid(dp.date, '|');
    assert forall|i: int, j: int|
        0 <= i < parts4.len() && 0 <= j < parts4[i].len() implies #[trigger] parts4[i][j]
        != '|' by {
        if i == 0 {
            assert(parts4[i] == "DAILY"@);
            lemma_daily_tag_char_not_pipe(j);
        } else if i == 1 {
            assert(parts4[i] == dp.date.digits());
        } else if i == 2 {
            assert(parts4[i] == amount_digits(dp.weight as nat));
        } else {
            assert(parts4[i] == activity_text(dp.activity_level));
            assert(parts4[i].len() == 1);
            assert(parts4[i][0] != '|');
        }
    }
    lemma_split_of_join(parts4, '|');
    assert(split_spec(line, '|') =~~= parts4);
    assert("PROFILE"@ != "DAILY"@) by {
        reveal_strlit("PROFILE");
        assert("PROFILE"@.len() != "DAILY"@.len());
    }
    crate::date::lemma_date_round_trip(dp.date);
    lemma_amount_round_trip(dp.weight);
    assert(activity_of(activity_text(dp.activity_level)) == dp.activity_level) by {
        lemma_activity_letters_distinct();
    }
}

/// Each character of "DAILY" differs from the field separator.
proof fn lemma_daily_tag_char_not_pipe(j: int)
    requires
        0 <= j < "DAILY"@.len(),
    ensures
        "DAILY"@[j] != '|',
{
    reveal_strlit("DAILY");
    if j == 0 {
    } else if j == 1 {
    } else if j == 2 {
    } else if j == 3 {
    } else {
        assert(j == 4);
    }
}

/// The five activity letters name five different levels.
proof fn lemma_activity_letters_distinct()
    ensures
        "S"@ != "L"@,
        "S"@ != "M"@,
        "S"@ != "V"@,
        "S"@ != "E"@,
        "L"@ != "M"@,
        "L"@ != "V"@,
        "L"@ != "E"@,
        "M"@ != "V"@,
        "M"@ != "E"@,
        "V"@ != "E"@,
{
    reveal_strlit("S");
    reveal_strlit("L");
    reveal_strlit("M");
    reveal_strlit("V");
    reveal_strlit("E");
    assert("S"@[0] != "L"@[0]);
    assert("S"@[0] != "M"@[0]);
    assert("S"@[0] != "V"@[0]);
    assert("S"@[0] != "E"@[0]);
    assert("L"@[0] != "M"@[0]);
    assert("L"@[0] != "V"@[0]);
    assert("L"@[0] != "E"@[0]);
    assert("M"@[0] != "V"@[0]);
    assert("M"@[0] != "E"@[0]);
    assert("V"@[0] != "E"@[0]);
}

/// The lines a stored profile exports: its fixed-traits line, then one
/// line per snapshot, in order.
pub open spec fn profile_lines_spec(m: UserProfileModel) -> Seq<Seq<char>> {
    seq![profile_line_spec(m)] + Seq::new(
        m.daily_profiles.len(),
        |i: int| daily_line_spec(m.daily_profiles[i]),
    )
}

/// Loading a prefix of the exported lines rebuilds the profile with
/// the snapshots seen so far.
proof fn lemma_fold_profile_export(m: UserProfileModel, k: int)
    requires
        storable_profile(m),
        0 <= k <= m.daily_profiles.len(),
    ensures
        fold_profile_lines(profile_lines_spec(m).take(1 + k)) == Some(
            UserProfileModel { daily_profiles: m.daily_profiles.take(k), ..m },
        ),
    decreases k,
{
    let lines = profile_lines_spec(m);
    if k == 0 {
        assert(lines.take(1) =~= seq![profile_line_spec(m)]);
        assert(seq![profile_line_spec(m)].drop_last() =~= Seq::<Seq<char>>::empty());
        lemma_profile_line_round_trip(m);
        assert(fold_profile_lines(lines.take(1)).unwrap() =~~= (UserProfileModel {
            daily_profiles: m.daily_profiles.take(0),
            ..m
        }));
    } else {
        lemma_fold_profile_export(m, k - 1);
        let dp = m.daily_profiles[k - 1];
        assert(lines.take(1 + k).drop_last() =~= lines.take(1 + (k - 1)));
        assert(lines.take(1 + k).last() == daily_line_spec(dp));
        assert(dp.date.wf());
        lemma_daily_line_round_trip(dp);
        lemma_profile_daily_distinct(daily_line_spec(dp));
        let prev = fold_profile_lines(lines.take(1 + (k - 1))).unwrap();
        // the snapshot's date is fresh among the ones already merged
        assert forall|j: int|
            0 <= j < k - 1 implies (#[trigger] prev.daily_profiles[j]).date != dp.date by {
            assert(prev.daily_profiles[j] == m.daily_profiles[j]);
        }
        crate::profile::lemma_daily_index_is(prev.daily_profiles, dp.date, k - 1);
        assert(merge_daily(prev, dp).daily_profiles =~= prev.daily_profiles.push(dp));
        assert(prev.daily_profiles.push(dp) =~= m.daily_profiles.take(k));
        assert(merge_daily(prev, dp) =~~= (UserProfileModel {
            daily_profiles: m.daily_profiles.take(k),
            ..m
        }));
    }
}

/// Storing and reloading restores a storable profile exactly.
pub proof fn lemma_profile_round_trip(m: UserProfileModel)
    requires
        storable_profile(m),
    ensures
        fold_profile_lines(profile_lines_spec(m)) == Some(m),
{
    lemma_fold_profile_export(m, m.daily_profiles.len() as int);
    assert(profile_lines_spec(m).take(1 + m.daily_profiles.len() as int) =~= profile_lines_spec(
        m,
    ));
    assert(m.daily_profiles.take(m.daily_profiles.len() as int) =~= m.daily_profiles);
    assert((UserProfileModel {
        daily_profiles: m.daily_profiles.take(m.daily_profiles.len() as int),
        ..m
    }) =~~= m);
}

/// Dropping a date keeps a selection of the original snapshots, so
/// their dates stay valid and, when unique before, unique after.
proof fn lemma_drop_date_keeps(profiles: Seq<DailyProfile>, date: Date)
    requires
        forall|i: int, j: int|
            0 <= i < j < profiles.len() ==> (#[trigger] profiles[i]).date != (
            #[trigger] profiles[j]).date,
    ensures
        forall|k: int|
            0 <= k < crate::profile::drop_date(profiles, date).len() ==> exists|j: int|
                0 <= j < profiles.len() && #[trigger] crate::profile::drop_date(profiles, date)[k]
                    == profiles[j],
        forall|i: int, j: int|
            0 <= i < j < crate::profile::drop_date(profiles, date).len() ==> (
            #[trigger] crate::profile::drop_date(profiles, date)[i]).date != (
            #[trigger] crate::profile::drop_date(profiles, date)[j]).date,
    decreases profiles.len(),
{
    let dd = crate::profile::drop_date(profiles, date);
    if profiles.len() > 0 {
        let front = profiles.drop_last();
        let df = crate::profile::drop_date(front, date);
        assert forall|i: int, j: int|
            0 <= i < j < front.len() implies (#[trigger] front[i]).date != (
            #[trigger] front[j]).date by {
            assert(front[i] == profiles[i]);
            assert(front[j] == profiles[j]);
        }
        lemma_drop_date_keeps(front, date);
        assert forall|k: int| 0 <= k < dd.len() implies exists|j: int|
            0 <= j < profiles.len() && #[trigger] dd[k] == profiles[j] by {
            if k < df.len() {
                assert(dd[k] == df[k]);
                let w = choose|j: int| 0 <= j < front.len() && #[trigger] df[k] == front[j];
                assert(dd[k] == profiles[w]);
            } else {
                assert(dd[k] == profiles.last());
                assert(dd[k] == profiles[profiles.len() - 1]);
            }
        }
        assert forall|i: int, j: int|
            0 <= i < j < dd.len() implies (#[trigger] dd[i]).date != (#[trigger] dd[j]).date by {
            if j < df.len() {
                assert(dd[i] == df[i]);
                assert(dd[j] == df[j]);
            } else {
                assert(dd[j] == profiles.last());
                assert(dd[i] == df[i]);
                let w = choose|x: int| 0 <= x < front.len() && #[trigger] df[i] == front[x];
                assert(profiles[w].date != profiles[profiles.len() - 1].date);
            }
        }
    }
}

} // verus!
