//! Consumption logs organised by date, and their storage format.  One
//! entry per line:
//!
//! ```text
//! YYYY-MM-DD|food_id|servings|YYYY-MM-DDTHH:MM:SS
//! ```
//!
//! Loading parses each line, skips lines that do not match the format,
//! and appends the entry to the log for its date, creating that log at
//! the end of the list when it is new.  In memory, days sit in the
//! order they were first recorded; saving writes them out in ascending
//! date order, entries of one day in their recorded order.

use vstd::prelude::*;
use vstd::string::*;

use crate::date::{parse_date, parse_date_spec, parse_timestamp, parse_timestamp_spec, Date,
    Timestamp};
use crate::food::{id_ok, is_id_ok};
use crate::log::{wf_entry_model, wf_log_model, DailyLog, DailyLogModel, FoodEntry, FoodEntryModel};
use crate::text::{
    amount_digits, join_spec, lemma_amount_avoids, lemma_amount_round_trip, lemma_split_of_join,
    parse_amount, parse_amount_spec, push_amount, split_char, split_spec, views_of,
};

verus! {

/// The stored line for one entry of one day's log.
pub open spec fn log_line_spec(date: Date, e: FoodEntryModel) -> Seq<char> {
    join_spec(
        seq![date.digits(), e.food_id, amount_digits(e.servings as nat), e.timestamp.digits()],
        '|',
    )
}

/// Renders one log entry as its stored line.
pub fn log_line(date: Date, e: &FoodEntry) -> (r: String)
    requires
        date.wf(),
        e.wf(),
    ensures
        r@ == log_line_spec(date, e@),
{
    let mut s = String::new();
    date.push_onto(&mut s);
    s.append("|");
    s.append(e.food_id.as_str());
    s.append("|");
    push_amount(&mut s, e.servings);
    s.append("|");
    e.timestamp.push_onto(&mut s);
    proof {
        reveal_strlit("|");
        let parts = seq![
            date.digits(),
            e@.food_id,
            amount_digits(e@.servings as nat),
            e@.timestamp.digits(),
        ];
        lemma_join4(date.digits(), e@.food_id, amount_digits(e@.servings as nat),
            e@.timestamp.digits(), '|');
        assert(s@ =~= log_line_spec(date, e@));
    }
    s
}

/// Joining four pieces spells them out with separators between.
pub proof fn lemma_join4(v0: Seq<char>, v1: Seq<char>, v2: Seq<char>, v3: Seq<char>, sep: char)
    ensures
        join_spec(seq![v0, v1, v2, v3], sep) == v0 + seq![sep] + (v1 + seq![sep] + (v2 + seq![sep]
            + v3)),
{
    let s4 = seq![v0, v1, v2, v3];
    let s3 = seq![v1, v2, v3];
    let s2 = seq![v2, v3];
    assert(s4.drop_first() =~= s3);
    assert(s3.drop_first() =~= s2);
    assert(s2.drop_first() =~= seq![v3]);
    assert(join_spec(seq![v3], sep) == v3);
    assert(join_spec(s2, sep) == v2 + seq![sep] + v3);
    assert(join_spec(s3, sep) == v1 + seq![sep] + join_spec(s2, sep));
    assert(join_spec(s4, sep) == v0 + seq![sep] + join_spec(s3, sep));
}

/// Parses one stored line into its date and entry.
pub open spec fn parse_log_line_spec(s: Seq<char>) -> Option<(Date, FoodEntryModel)> {
    let parts = split_spec(s, '|');
    if parts.len() != 4 {
        None
    } else {
        match parse_date_spec(parts[0]) {
            None => None,
            Some(date) => {
                if !id_ok(parts[1]) {
                    None
                } else {
                    match parse_amount_spec(parts[2]) {
                        None => None,
                        Some(servings) => match parse_timestamp_spec(parts[3]) {
                            None => None,
                            Some(ts) => Some(
                                (date, FoodEntryModel { food_id: parts[1], servings, timestamp: ts }),
                            ),
                        },
                    }
                }
            },
        }
    }
}

/// Parses one stored line.
pub fn parse_log_line(line: &str) -> (r: Option<(Date, FoodEntry)>)
    ensures
        match r {
            Some(p) => parse_log_line_spec(line@) == Some((p.0, p.1@)) && p.0.wf() && p.1.wf(),
            None => parse_log_line_spec(line@) is None,
        },
{
    let parts = split_char(line, '|');
    if parts.len() != 4 {
        return None;
    }
    let date = match parse_date(parts[0].as_str()) {
        Some(date) => date,
        None => {
            return None;
        },
    };
    if !is_id_ok(parts[1].as_str()) {
        return None;
    }
    let servings = match parse_amount(parts[2].as_str()) {
        Some(v) => v,
        None => {
            return None;
        },
    };
    let ts = match parse_timestamp(parts[3].as_str()) {
        Some(ts) => ts,
        None => {
            return None;
        },
    };
    let e = FoodEntry { food_id: parts[1].clone(), servings, timestamp: ts };
    proof {
        assert(e@ =~~= parse_log_line_spec(line@).unwrap().1);
    }
    Some((date, e))
}

/// A date rendering holds only digit characters and dashes.
pub proof fn lemma_date_digits_avoid(d: Date, c: char)
    requires
        !crate::text::is_digit(c),
        c != '-',
    ensures
        forall|k: int| 0 <= k < d.digits().len() ==> #[trigger] d.digits()[k] != c,
{
    let s = d.digits();
    let y = crate::text::pad4_digits(d.year as nat);
    let mo = crate::text::pad2_digits(d.month as nat);
    let da = crate::text::pad2_digits(d.day as nat);
    assert forall|k: int| 0 <= k < s.len() implies #[trigger] s[k] != c by {
        if k < y.len() {
            assert(s[k] == y[k]);
            lemma_pad4_all_digit_chars(d.year as nat, k);
        } else if k == y.len() {
            assert(s[k] == '-');
        } else if k < y.len() + 1 + mo.len() {
            assert(s[k] == mo[k - y.len() - 1]);
            lemma_pad2_all_digit_chars(d.month as nat, k - y.len() - 1);
        } else if k == y.len() + 1 + mo.len() {
            assert(s[k] == '-');
        } else {
            assert(s[k] == da[k - y.len() - 1 - mo.len() - 1]);
            lemma_pad2_all_digit_chars(d.day as nat, k - y.len() - 1 - mo.len() - 1);
        }
    }
}

/// A timestamp rendering holds only digit characters, dashes, 'T' and
/// colons.
pub proof fn lemma_timestamp_digits_avoid(t: Timestamp, c: char)
    requires
        !crate::text::is_digit(c),
        c != '-',
        c != 'T',
        c != ':',
    ensures
        forall|k: int| 0 <= k < t.digits().len() ==> #[trigger] t.digits()[k] != c,
{
    let s = t.digits();
    lemma_date_digits_avoid(t.date, c);
    let d = t.date.digits();
    let h = crate::text::pad2_digits(t.hour as nat);
    let mi = crate::text::pad2_digits(t.minute as nat);
    let se = crate::text::pad2_digits(t.second as nat);
    assert forall|k: int| 0 <= k < s.len() implies #[trigger] s[k] != c by {
        if k < d.len() {
            assert(s[k] == d[k]);
        } else if k == d.len() {
            assert(s[k] == 'T');
        } else if k < d.len() + 1 + h.len() {
            assert(s[k] == h[k - d.len() - 1]);
            lemma_pad2_all_digit_chars(t.hour as nat, k - d.len() - 1);
        } else if k == d.len() + 1 + h.len() {
            assert(s[k] == ':');
        } else if k < d.len() + 1 + h.len() + 1 + mi.len() {
            assert(s[k] == mi[k - d.len() - h.len() - 2]);
            lemma_pad2_all_digit_chars(t.minute as nat, k - d.len() - h.len() - 2);
        } else if k == d.len() + 1 + h.len() + 1 + mi.len() {
            assert(s[k] == ':');
        } else {
            assert(s[k] == se[k - d.len() - h.len() - mi.len() - 3]);
            lemma_pad2_all_digit_chars(t.second as nat, k - d.len() - h.len() - mi.len() - 3);
        }
    }
}

/// Formatting then parsing returns the same date and entry.
pub proof fn lemma_log_line_round_trip(date: Date, e: FoodEntryModel)
    requires
        date.wf(),
        wf_entry_model(e),
    ensures
        parse_log_line_spec(log_line_spec(date, e)) == Some((date, e)),
{
    let parts4 = seq![
        date.digits(),
        e.food_id,
        amount_digits(e.servings as nat),
        e.timestamp.digits(),
    ];
    let line = log_line_spec(date, e);
    lemma_date_digits_avoid(date, '|');
    lemma_amount_avoids(e.servings as nat, '|');
    lemma_timestamp_digits_avoid(e.timestamp, '|');
    assert forall|i: int, j: int|
        0 <= i < parts4.len() && 0 <= j < parts4[i].len() implies #[trigger] parts4[i][j]
        != '|' by {
        if i == 0 {
            assert(parts4[i] == date.digits());
        } else if i == 1 {
            assert(parts4[i] == e.food_id);
        } else if i == 2 {
            assert(parts4[i] == amount_digits(e.servings as nat));
        } else {
            assert(parts4[i] == e.timestamp.digits());
        }
    }
    lemma_split_of_join(parts4, '|');
    assert(split_spec(line, '|') =~~= parts4);
    crate::date::lemma_date_round_trip(date);
    lemma_amount_round_trip(e.servings);
    crate::date::lemma_timestamp_round_trip(e.timestamp);
    assert(parse_log_line_spec(line).unwrap().1 =~~= e);
}

/// The views of a list of logs.
pub open spec fn log_models(v: Seq<DailyLog>) -> Seq<DailyLogModel> {
    Seq::new(v.len(), |i: int| v[i]@)
}

/// Index of the first log for `date`, or the length when absent.
pub open spec fn log_index(ls: Seq<DailyLogModel>, date: Date) -> int
    decreases ls.len(),
{
    if ls.len() == 0 {
        0
    } else if ls[0].date == date {
        0
    } else {
        1 + log_index(ls.drop_first(), date)
    }
}

/// The log recorded for `date`, if any.
pub open spec fn find_log(ls: Seq<DailyLogModel>, date: Date) -> Option<DailyLogModel> {
    let i = log_index(ls, date);
    if i < ls.len() {
        Some(ls[i])
    } else {
        None
    }
}

pub proof fn lemma_log_index(ls: Seq<DailyLogModel>, date: Date)
    ensures
        0 <= log_index(ls, date) <= ls.len(),
        log_index(ls, date) < ls.len() ==> ls[log_index(ls, date)].date == date,
        forall|j: int| 0 <= j < log_index(ls, date) ==> ls[j].date != date,
    decreases ls.len(),
{
    if ls.len() > 0 && ls[0].date != date {
        lemma_log_index(ls.drop_first(), date);
        assert forall|j: int| 0 <= j < log_index(ls, date) implies ls[j].date != date by {
            if j > 0 {
                assert(ls.drop_first()[j - 1] == ls[j]);
            }
        }
    }
}

/// A scan that misses before `i` and hits at `i` pins the index.
pub proof fn lemma_log_index_is(ls: Seq<DailyLogModel>, date: Date, i: int)
    requires
        0 <= i <= ls.len(),
        forall|j: int| 0 <= j < i ==> (#[trigger] ls[j]).date != date,
        i < ls.len() ==> ls[i].date == date,
    ensures
        log_index(ls, date) == i,
    decreases ls.len(),
{
    if ls.len() > 0 && i > 0 {
        assert(ls[0].date != date);
        assert forall|j: int| 0 <= j < i - 1 implies (#[trigger] ls.drop_first()[j]).date
            != date by {
            assert(ls.drop_first()[j] == ls[j + 1]);
        }
        if i - 1 < ls.drop_first().len() {
            assert(ls.drop_first()[i - 1] == ls[i]);
        }
        lemma_log_index_is(ls.drop_first(), date, i - 1);
    }
}

/// Appends an entry to the log for its date, creating that log at the
/// end of the list when it is new.
pub open spec fn add_entry_spec(ls: Seq<DailyLogModel>, date: Date, e: FoodEntryModel) -> Seq<
    DailyLogModel,
> {
    let i = log_index(ls, date);
    if i < ls.len() {
        ls.update(i, DailyLogModel { date: ls[i].date, entries: ls[i].entries.push(e) })
    } else {
        ls.push(DailyLogModel { date, entries: seq![e] })
    }
}

/// What loading a list of lines builds: lines are parsed in order;
/// lines that do not match the format are skipped; each entry joins the
/// log for its date.
pub open spec fn fold_log_lines(lines: Seq<Seq<char>>) -> Seq<DailyLogModel>
    decreases lines.len(),
{
    if lines.len() == 0 {
        Seq::empty()
    } else {
        let prev = fold_log_lines(lines.drop_last());
        match parse_log_line_spec(lines.last()) {
            None => prev,
            Some(p) => add_entry_spec(prev, p.0, p.1),
        }
    }
}

/// The stored lines for one day's log, one per entry, in order.
pub open spec fn entry_lines(m: DailyLogModel) -> Seq<Seq<char>> {
    Seq::new(m.entries.len(), |i: int| log_line_spec(m.date, m.entries[i]))
}

/// The stored lines for a list of logs, in list order.
pub open spec fn logs_lines(ls: Seq<DailyLogModel>) -> Seq<Seq<char>>
    decreases ls.len(),
{
    if ls.len() == 0 {
        Seq::empty()
    } else {
        logs_lines(ls.drop_last()) + entry_lines(ls.last())
    }
}

/// Logs in ascending date order.
pub open spec fn sorted_by_date(ls: Seq<DailyLogModel>) -> bool {
    forall|i: int, j: int|
        0 <= i < j < ls.len() ==> (#[trigger] ls[i]).date.le_spec((#[trigger] ls[j]).date)
}

/// Index of the first log whose date lies after `d`, or the length.
pub open spec fn date_slot(ls: Seq<DailyLogModel>, d: Date) -> int
    decreases ls.len(),
{
    if ls.len() == 0 {
        0
    } else if !ls[0].date.le_spec(d) {
        0
    } else {
        1 + date_slot(ls.drop_first(), d)
    }
}

pub proof fn lemma_date_slot(ls: Seq<DailyLogModel>, d: Date)
    ensures
        0 <= date_slot(ls, d) <= ls.len(),
        date_slot(ls, d) < ls.len() ==> !ls[date_slot(ls, d)].date.le_spec(d),
        forall|j: int| 0 <= j < date_slot(ls, d) ==> (#[trigger] ls[j]).date.le_spec(d),
    decreases ls.len(),
{
    if ls.len() > 0 && ls[0].date.le_spec(d) {
        lemma_date_slot(ls.drop_first(), d);
        assert forall|j: int| 0 <= j < date_slot(ls, d) implies (#[trigger] ls[j]).date.le_spec(
            d,
        ) by {
            if j > 0 {
                assert(ls.drop_first()[j - 1] == ls[j]);
            }
        }
    }
}

/// A scan that passes before `k` and stops at `k` pins the slot.
pub proof fn lemma_date_slot_is(ls: Seq<DailyLogModel>, d: Date, k: int)
    requires
        0 <= k <= ls.len(),
        forall|j: int| 0 <= j < k ==> (#[trigger] ls[j]).date.le_spec(d),
        k < ls.len() ==> !ls[k].date.le_spec(d),
    ensures
        date_slot(ls, d) == k,
    decreases ls.len(),
{
    if ls.len() > 0 && k > 0 {
        assert(ls[0].date.le_spec(d));
        assert forall|j: int| 0 <= j < k - 1 implies (#[trigger] ls.drop_first()[j]).date.le_spec(
            d,
        ) by {
            assert(ls.drop_first()[j] == ls[j + 1]);
        }
        if k - 1 < ls.drop_first().len() {
            assert(ls.drop_first()[k - 1] == ls[k]);
        }
        lemma_date_slot_is(ls.drop_first(), d, k - 1);
    }
}

/// Places a log at its date's slot, keeping the order ascending.
pub open spec fn insert_sorted(ls: Seq<DailyLogModel>, m: DailyLogModel) -> Seq<DailyLogModel> {
    ls.insert(date_slot(ls, m.date), m)
}

/// The logs rearranged into ascending date order, one at a time.
pub open spec fn sort_by_date(ls: Seq<DailyLogModel>) -> Seq<DailyLogModel>
    decreases ls.len(),
{
    if ls.len() == 0 {
        Seq::empty()
    } else {
        insert_sorted(sort_by_date(ls.drop_last()), ls.last())
    }
}

/// Inserting a log with a fresh date keeps the list sorted, its dates
/// distinct, and its elements drawn from the old list and the new log.
pub proof fn lemma_insert_sorted_props(ls: Seq<DailyLogModel>, m: DailyLogModel)
    requires
        sorted_by_date(ls),
        forall|i: int, j: int|
            0 <= i < j < ls.len() ==> (#[trigger] ls[i]).date != (#[trigger] ls[j]).date,
        forall|i: int| 0 <= i < ls.len() ==> (#[trigger] ls[i]).date != m.date,
    ensures
        insert_sorted(ls, m).len() == ls.len() + 1,
        forall|k: int|
            0 <= k < insert_sorted(ls, m).len() ==> (#[trigger] insert_sorted(ls, m)[k]) == m
                || exists|j: int| 0 <= j < ls.len() && insert_sorted(ls, m)[k] == ls[j],
        sorted_by_date(insert_sorted(ls, m)),
        forall|i: int, j: int|
            0 <= i < j < insert_sorted(ls, m).len() ==> (#[trigger] insert_sorted(ls, m)[i]).date
                != (#[trigger] insert_sorted(ls, m)[j]).date,
{
    let s = date_slot(ls, m.date);
    let r = insert_sorted(ls, m);
    lemma_date_slot(ls, m.date);
    assert forall|k: int|
        0 <= k < r.len() implies (#[trigger] r[k]) == m || exists|j: int|
            0 <= j < ls.len() && r[k] == ls[j] by {
        if k < s {
            assert(r[k] == ls[k]);
        } else if k > s {
            assert(r[k] == ls[k - 1]);
        }
    }
    assert forall|i: int, j: int|
        0 <= i < j < r.len() implies (#[trigger] r[i]).date.le_spec((#[trigger] r[j]).date) by {
        if i < s && j < s {
            assert(r[i] == ls[i] && r[j] == ls[j]);
        } else if i < s && j == s {
            assert(r[i] == ls[i]);
            assert(ls[i].date.le_spec(m.date));
        } else if i < s && j > s {
            assert(r[i] == ls[i] && r[j] == ls[j - 1]);
        } else if i == s && j > s {
            assert(r[j] == ls[j - 1]);
            crate::date::lemma_date_le_total(ls[s].date, m.date);
            assert(m.date.le_spec(ls[s].date));
            if j - 1 > s {
                crate::date::lemma_date_le_trans(m.date, ls[s].date, ls[j - 1].date);
            }
        } else {
            assert(r[i] == ls[i - 1] && r[j] == ls[j - 1]);
        }
    }
    assert forall|i: int, j: int|
        0 <= i < j < r.len() implies (#[trigger] r[i]).date != (#[trigger] r[j]).date by {
        if i < s && j < s {
            assert(r[i] == ls[i] && r[j] == ls[j]);
        } else if i < s && j == s {
            assert(r[i] == ls[i]);
        } else if i < s && j > s {
            assert(r[i] == ls[i] && r[j] == ls[j - 1]);
        } else if i == s && j > s {
            assert(r[j] == ls[j - 1]);
        } else {
            assert(r[i] == ls[i - 1] && r[j] == ls[j - 1]);
        }
    }
}

/// Sorting a history with distinct dates yields an ascending list of
/// the same logs.
pub proof fn lemma_sort_by_date_props(ls: Seq<DailyLogModel>)
    requires
        forall|i: int, j: int|
            0 <= i < j < ls.len() ==> (#[trigger] ls[i]).date != (#[trigger] ls[j]).date,
    ensures
        sort_by_date(ls).len() == ls.len(),
        forall|k: int|
            0 <= k < sort_by_date(ls).len() ==> exists|j: int|
                0 <= j < ls.len() && (#[trigger] sort_by_date(ls)[k]) == ls[j],
        sorted_by_date(sort_by_date(ls)),
        forall|i: int, j: int|
            0 <= i < j < sort_by_date(ls).len() ==> (#[trigger] sort_by_date(ls)[i]).date != (
            #[trigger] sort_by_date(ls)[j]).date,
    decreases ls.len(),
{
    if ls.len() > 0 {
        let front = ls.drop_last();
        assert forall|i: int, j: int|
            0 <= i < j < front.len() implies (#[trigger] front[i]).date != (
            #[trigger] front[j]).date by {
            assert(front[i] == ls[i] && front[j] == ls[j]);
        }
        lemma_sort_by_date_props(front);
        let sf = sort_by_date(front);
        // the last log's date is fresh among the sorted front
        assert forall|i: int| 0 <= i < sf.len() implies (#[trigger] sf[i]).date
            != ls.last().date by {
            let w = choose|j: int| 0 <= j < front.len() && sf[i] == front[j];
            assert(front[w] == ls[w]);
            assert(ls[w].date != ls[ls.len() - 1].date);
        }
        lemma_insert_sorted_props(sf, ls.last());
        assert forall|k: int|
            0 <= k < sort_by_date(ls).len() implies exists|j: int|
                0 <= j < ls.len() && (#[trigger] sort_by_date(ls)[k]) == ls[j] by {
            if sort_by_date(ls)[k] == ls.last() {
                assert(sort_by_date(ls)[k] == ls[ls.len() - 1]);
            } else {
                let w = choose|j: int| 0 <= j < sf.len() && sort_by_date(ls)[k] == sf[j];
                let v = choose|j: int| 0 <= j < front.len() && sf[w] == front[j];
                assert(sort_by_date(ls)[k] == ls[v]);
            }
        }
    }
}

/// The consumption history: one log per date, in the order the dates
/// were first seen; saving writes the days out in ascending date order.
pub struct LogRepository {
    pub logs: Vec<DailyLog>,
}

impl LogRepository {
    pub open spec fn models(&self) -> Seq<DailyLogModel> {
        log_models(self.logs@)
    }

    /// Every log storable, and no date occurs twice.
    pub open spec fn wf(&self) -> bool {
        &&& forall|i: int| 0 <= i < self.models().len() ==> wf_log_model(#[trigger] self.models()[i])
        &&& forall|i: int, j: int|
            0 <= i < j < self.models().len() ==> (#[trigger] self.models()[i]).date != (
            #[trigger] self.models()[j]).date
    }

    /// An empty history.
    pub fn new() -> (r: LogRepository)
        ensures
            r.wf(),
            r.models() =~= Seq::<DailyLogModel>::empty(),
    {
        LogRepository { logs: Vec::new() }
    }

    /// Index of the log for this date, or the length when absent.
    fn position_of(&self, date: Date) -> (r: usize)
        ensures
            r == log_index(self.models(), date),
    {
        let mut i: usize = 0;
        while i < self.logs.len()
            invariant
                0 <= i <= self.logs@.len(),
                forall|j: int| 0 <= j < i ==> (#[trigger] self.models()[j]).date != date,
            decreases self.logs@.len() - i,
        {
            if self.logs[i].date == date {
                proof {
                    lemma_log_index_is(self.models(), date, i as int);
                }
                return i;
            }
            assert(self.models()[i as int].date != date);
            i = i + 1;
        }
        proof {
            lemma_log_index_is(self.models(), date, self.models().len() as int);
        }
        self.logs.len()
    }

    /// The log for this date, if any entry was ever recorded for it.
    pub fn get_log(&self, date: Date) -> (r: Option<&DailyLog>)
        ensures
            match r {
                Some(l) => find_log(self.models(), date) == Some(l@),
                None => find_log(self.models(), date) is None,
            },
    {
        let i = self.position_of(date);
        proof {
            lemma_log_index(self.models(), date);
        }
        if i < self.logs.len() {
            Some(&self.logs[i])
        } else {
            None
        }
    }

    /// Records an entry carrying the given moment under `date`.
    pub fn add_entry_at(&mut self, date: Date, food_id: String, servings: u32, timestamp: Timestamp)
        requires
            old(self).wf(),
            date.wf(),
            id_ok(food_id@),
            timestamp.wf(),
        ensures
            final(self).wf(),
            final(self).models() =~= add_entry_spec(
                old(self).models(),
                date,
                FoodEntryModel { food_id: food_id@, servings, timestamp },
            ),
    {
        let ghost e = FoodEntryModel { food_id: food_id@, servings, timestamp };
        let i = self.position_of(date);
        proof {
            lemma_log_index(self.models(), date);
        }
        if i < self.logs.len() {
            let mut log = self.logs.remove(i);
            log.add_entry_at(food_id, servings, timestamp);
            self.logs.insert(i, log);
            proof {
                assert(self.models() =~= old(self).models().update(
                    i as int,
                    DailyLogModel {
                        date: old(self).models()[i as int].date,
                        entries: old(self).models()[i as int].entries.push(e),
                    },
                ));
            }
        } else {
            let mut log = DailyLog::new(date);
            log.add_entry_at(food_id, servings, timestamp);
            self.logs.push(log);
            proof {
                assert(log@.entries =~= seq![e]);
                assert(self.models() =~= old(self).models().push(
                    DailyLogModel { date, entries: seq![e] },
                ));
            }
        }
    }

    /// Records an entry stamped with the current time under `date`.
    pub fn add_entry(&mut self, date: Date, food_id: String, servings: u32)
        requires
            old(self).wf(),
            date.wf(),
            id_ok(food_id@),
        ensures
            final(self).wf(),
            exists|ts: Timestamp|
                ts.wf() && final(self).models() =~= add_entry_spec(
                    old(self).models(),
                    date,
                    FoodEntryModel { food_id: food_id@, servings, timestamp: ts },
                ),
    {
        let ts = crate::clock::now_timestamp();
        self.add_entry_at(date, food_id, servings, ts);
    }

    /// Removes and returns the entry at `index` of the log for `date`.
    pub fn remove_entry(&mut self, date: Date, index: usize) -> (r: Option<FoodEntry>)
        requires
            old(self).wf(),
        ensures
            final(self).wf(),
            ({
                let li = log_index(old(self).models(), date);
                if li < old(self).models().len() && index < old(self).models()[li].entries.len() {
                    r is Some && r.unwrap()@ == old(self).models()[li].entries[index as int]
                        && final(self).models() =~= old(self).models().update(
                        li,
                        DailyLogModel {
                            date: old(self).models()[li].date,
                            entries: old(self).models()[li].entries.remove(index as int),
                        },
                    )
                } else {
                    r is None && final(self).models() =~= old(self).models()
                }
            }),
    {
        let i = self.position_of(date);
        proof {
            lemma_log_index(self.models(), date);
        }
        if i < self.logs.len() {
            let mut log = self.logs.remove(i);
            let r = log.remove_entry(index);
            self.logs.insert(i, log);
            proof {
                if index < old(self).models()[i as int].entries.len() {
                    assert(self.models() =~= old(self).models().update(
                        i as int,
                        DailyLogModel {
                            date: old(self).models()[i as int].date,
                            entries: old(self).models()[i as int].entries.remove(index as int),
                        },
                    ));
                } else {
                    assert(self.models() =~= old(self).models());
                }
            }
            r
        } else {
            None
        }
    }

    /// Removes the most recent entry naming `food_id` from the log for
    /// `date`; nothing changes when no log or no such entry exists.
    pub fn remove_last_matching(&mut self, date: Date, food_id: &String)
        requires
            old(self).wf(),
        ensures
            final(self).wf(),
            ({
                let li = log_index(old(self).models(), date);
                if li < old(self).models().len() {
                    let k = crate::log::last_match(old(self).models()[li].entries, food_id@);
                    if k >= 0 {
                        final(self).models() =~= old(self).models().update(
                            li,
                            DailyLogModel {
                                date: old(self).models()[li].date,
                                entries: old(self).models()[li].entries.remove(k),
                            },
                        )
                    } else {
                        final(self).models() =~= old(self).models()
                    }
                } else {
                    final(self).models() =~= old(self).models()
                }
            }),
    {
        let i = self.position_of(date);
        proof {
            lemma_log_index(self.models(), date);
        }
        if i < self.logs.len() {
            let mut log = self.logs.remove(i);
            log.remove_last_matching(food_id);
            self.logs.insert(i, log);
            proof {
                let oldm = old(self).models()[i as int];
                let k = crate::log::last_match(oldm.entries, food_id@);
                crate::log::lemma_last_match_bounds(oldm.entries, food_id@);
                if k >= 0 {
                    assert(wf_log_model(oldm));
                    assert forall|j: int|
                        0 <= j < oldm.entries.remove(k).len() implies wf_entry_model(
                        #[trigger] oldm.entries.remove(k)[j]) by {
                        if j < k {
                            assert(oldm.entries.remove(k)[j] == oldm.entries[j]);
                        } else {
                            assert(oldm.entries.remove(k)[j] == oldm.entries[j + 1]);
                        }
                    }
                    assert(self.models() =~= old(self).models().update(
                        i as int,
                        DailyLogModel { date: oldm.date, entries: oldm.entries.remove(k) },
                    ));
                } else {
                    assert(self.models() =~= old(self).models());
                }
            }
        }
    }

    /// Puts an entry back at `index` of the log for `date`; a new log
    /// is created when none exists and `index` is zero.
    pub fn insert_entry(&mut self, date: Date, index: usize, entry: FoodEntry) -> (r: bool)
        requires
            old(self).wf(),
            date.wf(),
            entry.wf(),
        ensures
            final(self).wf(),
            ({
                let li = log_index(old(self).models(), date);
                if li < old(self).models().len() {
                    if index <= old(self).models()[li].entries.len() {
                        r && final(self).models() =~= old(self).models().update(
                            li,
                            DailyLogModel {
                                date: old(self).models()[li].date,
                                entries: old(self).models()[li].entries.insert(
                                    index as int,
                                    entry@,
                                ),
                            },
                        )
                    } else {
                        !r && final(self).models() =~= old(self).models()
                    }
                } else {
                    if index == 0 {
                        r && final(self).models() =~= old(self).models().push(
                            DailyLogModel { date, entries: seq![entry@] },
                        )
                    } else {
                        !r && final(self).models() =~= old(self).models()
                    }
                }
            }),
    {
        let ghost ev = entry@;
        let i = self.position_of(date);
        proof {
            lemma_log_index(self.models(), date);
        }
        if i < self.logs.len() {
            let mut log = self.logs.remove(i);
            let ok = log.insert_entry_at(index, entry);
            self.logs.insert(i, log);
            proof {
                if index <= old(self).models()[i as int].entries.len() {
                    assert(self.models() =~= old(self).models().update(
                        i as int,
                        DailyLogModel {
                            date: old(self).models()[i as int].date,
                            entries: old(self).models()[i as int].entries.insert(index as int, ev),
                        },
                    ));
                } else {
                    assert(self.models() =~= old(self).models());
                }
            }
            ok
        } else if index == 0 {
            let mut log = DailyLog::new(date);
            let ok = log.insert_entry_at(0, entry);
            self.logs.push(log);
            proof {
                assert(log@.entries =~= seq![ev]);
                assert(self.models() =~= old(self).models().push(
                    DailyLogModel { date, entries: seq![ev] },
                ));
            }
            ok
        } else {
            false
        }
    }

    /// Renders the whole history, one line per entry, logs in list
    /// order and entries in log order.
    /// The logs copied into ascending date order.
    fn sorted_logs(&self) -> (r: Vec<DailyLog>)
        requires
            self.wf(),
        ensures
            log_models(r@) =~~= sort_by_date(self.models()),
    {
        let ghost ms = self.models();
        let mut out: Vec<DailyLog> = Vec::new();
        let mut i: usize = 0;
        while i < self.logs.len()
            invariant
                0 <= i <= self.logs@.len(),
                self.wf(),
                ms == self.models(),
                log_models(out@) =~~= sort_by_date(ms.take(i as int)),
            decreases self.logs@.len() - i,
        {
            proof {
                assert(ms.take(i + 1).drop_last() =~= ms.take(i as int));
                assert(ms.take(i + 1).last() == ms[i as int]);
            }
            let cur = self.logs[i].duplicate();
            let ghost sf = log_models(out@);
            let mut j: usize = 0;
            while j < out.len() && out[j].date.le(&cur.date)
                invariant
                    0 <= j <= out@.len(),
                    sf == log_models(out@),
                    cur@ == ms[i as int],
                    forall|k: int| 0 <= k < j ==> (#[trigger] sf[k]).date.le_spec(cur@.date),
                decreases out@.len() - j,
            {
                assert(sf[j as int].date.le_spec(cur@.date));
                j = j + 1;
            }
            proof {
                lemma_date_slot_is(sf, cur@.date, j as int);
            }
            let ghost pre = out@;
            out.insert(j, cur);
            proof {
                assert forall|k: int|
                    0 <= k < out@.len() implies #[trigger] log_models(out@)[k] == sf.insert(
                    j as int,
                    ms[i as int],
                )[k] by {
                    if k < j {
                        assert(out@[k] == pre[k]);
                    } else if k > j {
                        assert(out@[k] == pre[k - 1]);
                    }
                }
                assert(log_models(out@) =~~= insert_sorted(sf, ms[i as int]));
            }
            i = i + 1;
        }
        proof {
            assert(ms.take(ms.len() as int) =~= ms);
        }
        out
    }

    /// Renders the whole history, one line per entry, days in ascending
    /// date order and the entries of each day in their recorded order.
    pub fn export_lines(&self) -> (r: Vec<String>)
        requires
            self.wf(),
        ensures
            views_of(r@) =~= logs_lines(sort_by_date(self.models())),
    {
        let sorted = self.sorted_logs();
        let ghost smodels = sort_by_date(self.models());
        proof {
            lemma_sort_by_date_props(self.models());
            assert forall|k: int|
                0 <= k < smodels.len() implies wf_log_model(#[trigger] smodels[k]) by {
                let w = choose|j: int|
                    0 <= j < self.models().len() && smodels[k] == self.models()[j];
                assert(wf_log_model(self.models()[w]));
            }
        }
        let mut out: Vec<String> = Vec::new();
        let mut i: usize = 0;
        while i < sorted.len()
            invariant
                0 <= i <= sorted@.len(),
                log_models(sorted@) == smodels,
                forall|k: int| 0 <= k < smodels.len() ==> wf_log_model(#[trigger] smodels[k]),
                views_of(out@) =~= logs_lines(smodels.take(i as int)),
            decreases sorted@.len() - i,
        {
            proof {
                assert(smodels.take(i + 1).drop_last() =~= smodels.take(i as int));
                assert(smodels.take(i + 1).last() == smodels[i as int]);
            }
            let log = &sorted[i];
            proof {
                assert(log@ == smodels[i as int]);
            }
            let mut j: usize = 0;
            while j < log.entries.len()
                invariant
                    0 <= j <= log.entries@.len(),
                    0 <= i < sorted@.len(),
                    log == &sorted[i as int],
                    i < smodels.len(),
                    log@ == smodels[i as int],
                    wf_log_model(log@),
                    views_of(out@) =~= logs_lines(smodels.take(i as int)) + entry_lines(
                        log@,
                    ).take(j as int),
                decreases log.entries@.len() - j,
            {
                proof {
                    assert(wf_entry_model(log@.entries[j as int]));
                    assert(entry_lines(log@).take(j + 1) =~= entry_lines(log@).take(
                        j as int,
                    ).push(log_line_spec(log@.date, log@.entries[j as int])));
                }
                let ghost pre = out@;
                out.push(log_line(log.date, &log.entries[j]));
                proof {
                    assert(views_of(out@) =~= views_of(pre).push(
                        log_line_spec(log@.date, log@.entries[j as int]),
                    ));
                    assert(views_of(out@) =~= logs_lines(smodels.take(i as int)) + entry_lines(
                        log@,
                    ).take(j + 1));
                }
                j = j + 1;
            }
            proof {
                assert(entry_lines(log@).take(log@.entries.len() as int) =~= entry_lines(log@));
            }
            i = i + 1;
        }
        proof {
            assert(smodels.take(smodels.len() as int) =~= smodels);
        }
        out
    }

    /// Rebuilds the history from stored lines: parse each line in
    /// order, skip lines that do not match the format, and append each
    /// entry to the log for its date.
    pub fn import_lines(lines: &Vec<String>) -> (r: LogRepository)
        ensures
            r.wf(),
            r.models() =~= fold_log_lines(views_of(lines@)),
    {
        let ghost lviews = views_of(lines@);
        let mut repo = LogRepository::new();
        let mut i: usize = 0;
        while i < lines.len()
            invariant
                0 <= i <= lines@.len(),
                lviews == views_of(lines@),
                repo.wf(),
                repo.models() =~= fold_log_lines(lviews.take(i as int)),
            decreases lines@.len() - i,
        {
            proof {
                assert(lviews.take(i + 1).drop_last() =~= lviews.take(i as int));
                assert(lviews.take(i + 1).last() == lviews[i as int]);
            }
            match parse_log_line(lines[i].as_str()) {
                None => {},
                Some((date, e)) => {
                    repo.add_entry_at(date, e.food_id, e.servings, e.timestamp);
                },
            }
            i = i + 1;
        }
        proof {
            assert(lviews.take(lviews.len() as int) =~= lviews);
        }
        repo
    }
}

/// Loading the exported lines of some logs, then a prefix of one more
/// log's lines, rebuilds those logs with the entries seen so far.
proof fn lemma_fold_log_export(ls: Seq<DailyLogModel>, i: int, j: int)
    requires
        forall|a: int| 0 <= a < ls.len() ==> wf_log_model(#[trigger] ls[a]),
        forall|a: int, b: int|
            0 <= a < b < ls.len() ==> (#[trigger] ls[a]).date != (#[trigger] ls[b]).date,
        forall|a: int| 0 <= a < ls.len() ==> (#[trigger] ls[a]).entries.len() >= 1,
        0 <= i < ls.len(),
        0 <= j <= ls[i].entries.len(),
        fold_log_lines(logs_lines(ls.take(i))) =~~= ls.take(i),
    ensures
        fold_log_lines(logs_lines(ls.take(i)) + entry_lines(ls[i]).take(j)) =~~= if j == 0 {
            ls.take(i)
        } else {
            ls.take(i).push(DailyLogModel { date: ls[i].date, entries: ls[i].entries.take(j) })
        },
    decreases j,
{
    let head = logs_lines(ls.take(i));
    let log = ls[i];
    if j == 0 {
        assert(head + entry_lines(log).take(0) =~= head);
    } else {
        lemma_fold_log_export(ls, i, j - 1);
        let whole = head + entry_lines(log).take(j);
        assert(whole.drop_last() =~= head + entry_lines(log).take(j - 1));
        assert(whole.last() == log_line_spec(log.date, log.entries[j - 1]));
        assert(wf_log_model(log));
        assert(wf_entry_model(log.entries[j - 1]));
        lemma_log_line_round_trip(log.date, log.entries[j - 1]);
        let prev = fold_log_lines(whole.drop_last());
        if j == 1 {
            // the date is new: the entry opens a fresh log at the end
            assert(prev =~~= ls.take(i));
            assert forall|a: int| 0 <= a < i implies (#[trigger] prev[a]).date != log.date by {
                assert(prev[a].date == ls.take(i)[a].date);
                assert(ls.take(i)[a] == ls[a]);
            }
            lemma_log_index_is(prev, log.date, i);
            assert(add_entry_spec(prev, log.date, log.entries[0]) =~~= prev.push(
                DailyLogModel { date: log.date, entries: seq![log.entries[0]] },
            ));
            assert(seq![log.entries[0]] =~= log.entries.take(1));
        } else {
            // the log already sits at the end: the entry joins it
            let mid = ls.take(i).push(
                DailyLogModel { date: log.date, entries: log.entries.take(j - 1) },
            );
            assert(prev =~~= mid);
            assert forall|a: int| 0 <= a < i implies (#[trigger] prev[a]).date != log.date by {
                assert(prev[a].date == ls[a].date);
            }
            assert(prev[i].date == log.date);
            lemma_log_index_is(prev, log.date, i);
            assert(add_entry_spec(prev, log.date, log.entries[j - 1]) =~~= prev.update(
                i,
                DailyLogModel {
                    date: log.date,
                    entries: log.entries.take(j - 1).push(log.entries[j - 1]),
                },
            ));
            assert(log.entries.take(j - 1).push(log.entries[j - 1]) =~= log.entries.take(j));
            assert(prev.update(
                i,
                DailyLogModel { date: log.date, entries: log.entries.take(j) },
            ) =~~= ls.take(i).push(DailyLogModel { date: log.date, entries: log.entries.take(j) }));
        }
    }
}

/// Loading the exported lines rebuilds each prefix of the history.
proof fn lemma_fold_logs_prefix(ls: Seq<DailyLogModel>, i: int)
    requires
        forall|a: int| 0 <= a < ls.len() ==> wf_log_model(#[trigger] ls[a]),
        forall|a: int, b: int|
            0 <= a < b < ls.len() ==> (#[trigger] ls[a]).date != (#[trigger] ls[b]).date,
        forall|a: int| 0 <= a < ls.len() ==> (#[trigger] ls[a]).entries.len() >= 1,
        0 <= i <= ls.len(),
    ensures
        fold_log_lines(logs_lines(ls.take(i))) =~~= ls.take(i),
    decreases i,
{
    if i == 0 {
        assert(ls.take(0) =~= Seq::<DailyLogModel>::empty());
        assert(logs_lines(ls.take(0)) =~= Seq::<Seq<char>>::empty());
    } else {
        lemma_fold_logs_prefix(ls, i - 1);
        let n = ls[i - 1].entries.len() as int;
        lemma_fold_log_export(ls, i - 1, n);
        assert(logs_lines(ls.take(i)) =~= logs_lines(ls.take(i - 1)) + entry_lines(ls[i - 1])) by {
            assert(ls.take(i).drop_last() =~= ls.take(i - 1));
            assert(ls.take(i).last() == ls[i - 1]);
        }
        assert(entry_lines(ls[i - 1]).take(n) =~= entry_lines(ls[i - 1]));
        assert(ls[i - 1].entries.take(n) =~= ls[i - 1].entries);
        assert((DailyLogModel { date: ls[i - 1].date, entries: ls[i - 1].entries.take(n) })
            =~~= ls[i - 1]);
        assert(ls.take(i - 1).push(ls[i - 1]) =~= ls.take(i));
    }
}

/// What saving then loading leaves of a history: the same days with
/// the same entries, rearranged into ascending date order; as before,
/// only an empty log would be forgotten.
pub proof fn lemma_sorted_export_round_trip(ls: Seq<DailyLogModel>)
    requires
        forall|a: int| 0 <= a < ls.len() ==> wf_log_model(#[trigger] ls[a]),
        forall|a: int, b: int|
            0 <= a < b < ls.len() ==> (#[trigger] ls[a]).date != (#[trigger] ls[b]).date,
        forall|a: int| 0 <= a < ls.len() ==> (#[trigger] ls[a]).entries.len() >= 1,
    ensures
        sorted_by_date(sort_by_date(ls)),
        fold_log_lines(logs_lines(sort_by_date(ls))) =~~= sort_by_date(ls),
{
    lemma_sort_by_date_props(ls);
    let s = sort_by_date(ls);
    assert forall|a: int| 0 <= a < s.len() implies wf_log_model(#[trigger] s[a]) by {
        let w = choose|j: int| 0 <= j < ls.len() && s[a] == ls[j];
        assert(wf_log_model(ls[w]));
    }
    assert forall|a: int| 0 <= a < s.len() implies (#[trigger] s[a]).entries.len() >= 1 by {
        let w = choose|j: int| 0 <= j < ls.len() && s[a] == ls[j];
        assert(ls[w].entries.len() >= 1);
    }
    lemma_logs_round_trip(s);
}

/// Storing and reloading restores the history exactly, as long as no
/// log is empty; an empty log exports no lines, so only its absence
/// would be forgotten.
pub proof fn lemma_logs_round_trip(ls: Seq<DailyLogModel>)
    requires
        forall|a: int| 0 <= a < ls.len() ==> wf_log_model(#[trigger] ls[a]),
        forall|a: int, b: int|
            0 <= a < b < ls.len() ==> (#[trigger] ls[a]).date != (#[trigger] ls[b]).date,
        forall|a: int| 0 <= a < ls.len() ==> (#[trigger] ls[a]).entries.len() >= 1,
    ensures
        fold_log_lines(logs_lines(ls)) =~~= ls,
{
    lemma_fold_logs_prefix(ls, ls.len() as int);
    assert(ls.take(ls.len() as int) =~= ls);
}

/// Each character of a two-digit group is a digit character.
proof fn lemma_pad2_all_digit_chars(n: nat, k: int)
    requires
        0 <= k < 2,
    ensures
        crate::text::is_digit(crate::text::pad2_digits(n)[k]),
{
}

/// Each character of a four-digit group is a digit character.
proof fn lemma_pad4_all_digit_chars(n: nat, k: int)
    requires
        0 <= k < 4,
    ensures
        crate::text::is_digit(crate::text::pad4_digits(n)[k]),
{
}

} // verus!
