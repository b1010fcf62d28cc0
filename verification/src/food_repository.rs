//! The food catalog and its storage format.  One food per line:
//!
//! ```text
//! B|id|name|keyword,keyword|calories
//! C|id|name|keyword,keyword|component:servings,component:servings
//! ```
//!
//! Calories and servings are written as fixed-point amounts with two
//! fractional digits.  Loading parses each line, skips lines that do not
//! match the format, replaces earlier entries on a repeated id, computes
//! a composite food's calories from the entries loaded before it, and
//! ends with a recalculation pass over all composite foods in order.

use vstd::prelude::*;
use vstd::string::*;

use crate::food::{
    component_views, find_food, food_index, id_ok, is_id_ok, is_name_ok, is_keyword_ok,
    keyword_ok, lemma_food_index, lemma_food_index_is, name_ok, wf_model, Food, FoodModel,
    FoodType,
};
use crate::text::{
    amount_digits, is_digit, join_char, join_spec, lemma_amount_avoids, lemma_amount_round_trip,
    lemma_join_avoids, lemma_split_of_join, parse_amount, parse_amount_spec, push_amount,
    split_char, split_spec, views_of,
};

verus! {

/// The keyword field: keywords joined with commas.
pub open spec fn keywords_part(m: FoodModel) -> Seq<char> {
    join_spec(m.keywords, ',')
}

/// One component reference: the id, a colon, and the serving amount.
pub open spec fn component_digits(c: (Seq<char>, u32)) -> Seq<char> {
    c.0 + seq![':'] + amount_digits(c.1 as nat)
}

/// The component field: component references joined with commas.
pub open spec fn components_part(m: FoodModel) -> Seq<char> {
    join_spec(Seq::new(m.components.len(), |i: int| component_digits(m.components[i])), ',')
}

/// The stored line for a food.
pub open spec fn food_line_spec(m: FoodModel) -> Seq<char> {
    join_spec(
        seq![
            if m.food_type is Basic {
                seq!['B']
            } else {
                seq!['C']
            },
            m.id,
            m.name,
            keywords_part(m),
            if m.food_type is Basic {
                amount_digits(m.calories_per_serving as nat)
            } else {
                components_part(m)
            },
        ],
        '|',
    )
}

/// Joining five pieces spells them out with separators between.
pub proof fn lemma_join5(
    v0: Seq<char>,
    v1: Seq<char>,
    v2: Seq<char>,
    v3: Seq<char>,
    v4: Seq<char>,
    sep: char,
)
    ensures
        join_spec(seq![v0, v1, v2, v3, v4], sep) == v0 + seq![sep] + (v1 + seq![sep] + (v2
            + seq![sep] + (v3 + seq![sep] + v4))),
{
    let s5 = seq![v0, v1, v2, v3, v4];
    let s4 = seq![v1, v2, v3, v4];
    let s3 = seq![v2, v3, v4];
    let s2 = seq![v3, v4];
    assert(s5.drop_first() =~= s4);
    assert(s4.drop_first() =~= s3);
    assert(s3.drop_first() =~= s2);
    assert(s2.drop_first() =~= seq![v4]);
    assert(join_spec(seq![v4], sep) == v4);
    assert(join_spec(s2, sep) == v3 + seq![sep] + v4);
    assert(join_spec(s3, sep) == v2 + seq![sep] + join_spec(s2, sep));
    assert(join_spec(s4, sep) == v1 + seq![sep] + join_spec(s3, sep));
    assert(join_spec(s5, sep) == v0 + seq![sep] + join_spec(s4, sep));
}

/// Renders one food as its stored line.
pub fn food_line(f: &Food) -> (r: String)
    requires
        f.wf(),
    ensures
        r@ == food_line_spec(f@),
{
    let mut s = String::new();
    match f.food_type {
        FoodType::Basic => s.append("B"),
        FoodType::Composite => s.append("C"),
    }
    s.append("|");
    s.append(f.id.as_str());
    s.append("|");
    s.append(f.name.as_str());
    s.append("|");
    proof {
        reveal_strlit(",");
        assert(","@ =~= seq![',']);
    }
    let kw = join_char(&f.keywords, ',', ",");
    s.append(kw.as_str());
    s.append("|");
    match f.food_type {
        FoodType::Basic => {
            push_amount(&mut s, f.calories_per_serving);
        },
        FoodType::Composite => {
            let mut comp_texts: Vec<String> = Vec::new();
            let mut i: usize = 0;
            while i < f.components.len()
                invariant
                    0 <= i <= f.components@.len(),
                    comp_texts@.len() == i,
                    forall|j: int|
                        0 <= j < i ==> (#[trigger] comp_texts@[j])@ == component_digits(
                            (f.components@[j].0@, f.components@[j].1),
                        ),
                decreases f.components@.len() - i,
            {
                let mut t = f.components[i].0.clone();
                t.append(":");
                push_amount(&mut t, f.components[i].1);
                proof {
                    reveal_strlit(":");
                    assert(t@ =~= component_digits(
                        (f.components@[i as int].0@, f.components@[i as int].1),
                    ));
                }
                comp_texts.push(t);
                i = i + 1;
            }
            let joined = join_char(&comp_texts, ',', ",");
            proof {
                assert(views_of(comp_texts@) =~= Seq::new(
                    f@.components.len(),
                    |i: int| component_digits(f@.components[i]),
                ));
            }
            s.append(joined.as_str());
        },
    }
    proof {
        reveal_strlit("B");
        reveal_strlit("C");
        reveal_strlit("|");
        let tag = if f@.food_type is Basic {
            seq!['B']
        } else {
            seq!['C']
        };
        let last = if f@.food_type is Basic {
            amount_digits(f@.calories_per_serving as nat)
        } else {
            components_part(f@)
        };
        lemma_join5(tag, f@.id, f@.name, keywords_part(f@), last, '|');
        assert(s@ =~= food_line_spec(f@));
    }
    s
}

/// Parses one component reference: "id:amount".
pub open spec fn parse_component_spec(c: Seq<char>) -> Option<(Seq<char>, u32)> {
    let cp = split_spec(c, ':');
    if cp.len() != 2 {
        None
    } else if !id_ok(cp[0]) {
        None
    } else {
        match parse_amount_spec(cp[1]) {
            None => None,
            Some(v) => Some((cp[0], v)),
        }
    }
}

/// Parses a list of component references, failing when any one fails.
pub open spec fn parse_components_spec(v: Seq<Seq<char>>) -> Option<Seq<(Seq<char>, u32)>>
    decreases v.len(),
{
    if v.len() == 0 {
        Some(Seq::empty())
    } else {
        match parse_components_spec(v.drop_last()) {
            None => None,
            Some(acc) => match parse_component_spec(v.last()) {
                None => None,
                Some(c) => Some(acc.push(c)),
            },
        }
    }
}

pub proof fn lemma_parse_components_props(v: Seq<Seq<char>>)
    requires
        parse_components_spec(v) is Some,
    ensures
        parse_components_spec(v).unwrap().len() == v.len(),
        forall|i: int|
            0 <= i < v.len() ==> id_ok((#[trigger] parse_components_spec(v).unwrap()[i]).0),
    decreases v.len(),
{
    if v.len() > 0 {
        lemma_parse_components_props(v.drop_last());
        let whole = parse_components_spec(v).unwrap();
        let acc = parse_components_spec(v.drop_last()).unwrap();
        assert forall|i: int| 0 <= i < v.len() implies id_ok((#[trigger] whole[i]).0) by {
            if i < v.len() - 1 {
                assert(whole[i] == acc[i]);
            }
        }
    }
}

/// Parses one stored line into a food.  A composite food's calories are
/// set to zero here; loading computes them from the other entries.
pub open spec fn parse_food_line_spec(s: Seq<char>) -> Option<FoodModel> {
    let parts = split_spec(s, '|');
    if parts.len() != 5 {
        None
    } else {
        let kws = split_spec(parts[3], ',');
        if !(parts[0] == seq!['B'] || parts[0] == seq!['C']) {
            None
        } else if !id_ok(parts[1]) || !name_ok(parts[2]) {
            None
        } else if !(forall|i: int| 0 <= i < kws.len() ==> keyword_ok(#[trigger] kws[i])) {
            None
        } else if parts[0] == seq!['B'] {
            match parse_amount_spec(parts[4]) {
                None => None,
                Some(cal) => Some(
                    FoodModel {
                        id: parts[1],
                        name: parts[2],
                        keywords: kws,
                        calories_per_serving: cal,
                        food_type: FoodType::Basic,
                        components: Seq::empty(),
                    },
                ),
            }
        } else {
            match parse_components_spec(split_spec(parts[4], ',')) {
                None => None,
                Some(comps) => Some(
                    FoodModel {
                        id: parts[1],
                        name: parts[2],
                        keywords: kws,
                        calories_per_serving: 0,
                        food_type: FoodType::Composite,
                        components: comps,
                    },
                ),
            }
        }
    }
}

/// When any element fails to parse as a component, the whole list fails.
pub proof fn lemma_parse_components_fail(v: Seq<Seq<char>>, k: int)
    requires
        0 <= k < v.len(),
        parse_component_spec(v[k]) is None,
    ensures
        parse_components_spec(v) is None,
    decreases v.len(),
{
    if k < v.len() - 1 {
        assert(v.drop_last()[k] == v[k]);
        lemma_parse_components_fail(v.drop_last(), k);
    }
}

/// Parses one stored line.
pub fn parse_food_line(line: &str) -> (r: Option<Food>)
    ensures
        match r {
            Some(f) => parse_food_line_spec(line@) == Some(f@) && f.wf(),
            None => parse_food_line_spec(line@) is None,
        },
{
    let ghost sparts = split_spec(line@, '|');
    let parts = split_char(line, '|');
    if parts.len() != 5 {
        return None;
    }
    let tag_is_b = crate::text::text_is_single(parts[0].as_str(), 'B');
    let tag_is_c = crate::text::text_is_single(parts[0].as_str(), 'C');
    if !tag_is_b && !tag_is_c {
        return None;
    }
    if !is_id_ok(parts[1].as_str()) {
        return None;
    }
    if !is_name_ok(parts[2].as_str()) {
        return None;
    }
    let ghost skws = split_spec(sparts[3], ',');
    let kws = split_char(parts[3].as_str(), ',');
    let mut i: usize = 0;
    while i < kws.len()
        invariant
            0 <= i <= kws@.len(),
            sparts == split_spec(line@, '|'),
            sparts.len() == 5,
            skws == split_spec(sparts[3], ','),
            views_of(kws@) =~= skws,
            forall|j: int| 0 <= j < i ==> keyword_ok(#[trigger] skws[j]),
        decreases kws@.len() - i,
    {
        if !is_keyword_ok(kws[i].as_str()) {
            assert(!keyword_ok(skws[i as int]));
            return None;
        }
        assert(keyword_ok(skws[i as int]));
        i = i + 1;
    }
    if tag_is_b {
        let cal = match parse_amount(parts[4].as_str()) {
            Some(cal) => cal,
            None => {
                return None;
            },
        };
        let f = Food {
            id: parts[1].clone(),
            name: parts[2].clone(),
            keywords: kws,
            calories_per_serving: cal,
            food_type: FoodType::Basic,
            components: Vec::new(),
        };
        proof {
            lemma_parse_food_wf(line@);
            assert(f@ =~~= parse_food_line_spec(line@).unwrap());
        }
        Some(f)
    } else {
        let ghost scomps = split_spec(sparts[4], ',');
        let comp_texts = split_char(parts[4].as_str(), ',');
        let mut comps: Vec<(String, u32)> = Vec::new();
        let mut i: usize = 0;
        while i < comp_texts.len()
            invariant
                0 <= i <= comp_texts@.len(),
                sparts == split_spec(line@, '|'),
                sparts.len() == 5,
                sparts[0] == seq!['C'],
                scomps == split_spec(sparts[4], ','),
                views_of(comp_texts@) =~= scomps,
                comps@.len() == i,
                parse_components_spec(scomps.take(i as int)) == Some(component_views(comps@)),
            decreases comp_texts@.len() - i,
        {
            let ghost pre = component_views(comps@);
            let cp = split_char(comp_texts[i].as_str(), ':');
            if cp.len() != 2 {
                proof {
                    assert(seq!['B'] != seq!['C']) by {
                        assert(seq!['B'][0] != seq!['C'][0]);
                    }
                    lemma_parse_components_fail(scomps, i as int);
                }
                return None;
            }
            if !is_id_ok(cp[0].as_str()) {
                proof {
                    assert(seq!['B'] != seq!['C']) by {
                        assert(seq!['B'][0] != seq!['C'][0]);
                    }
                    lemma_parse_components_fail(scomps, i as int);
                }
                return None;
            }
            let v = match parse_amount(cp[1].as_str()) {
                Some(v) => v,
                None => {
                    proof {
                        assert(seq!['B'] != seq!['C']) by {
                            assert(seq!['B'][0] != seq!['C'][0]);
                        }
                        lemma_parse_components_fail(scomps, i as int);
                    }
                    return None;
                },
            };
            comps.push((cp[0].clone(), v));
            proof {
                assert(parse_component_spec(scomps[i as int]) == Some((cp@[0]@, v)));
                assert(scomps.take(i + 1).drop_last() =~= scomps.take(i as int));
                assert(scomps.take(i + 1).last() == scomps[i as int]);
                assert(component_views(comps@) =~= pre.push((cp@[0]@, v)));
            }
            i = i + 1;
        }
        proof {
            assert(scomps.take(scomps.len() as int) =~= scomps);
        }
        let f = Food {
            id: parts[1].clone(),
            name: parts[2].clone(),
            keywords: kws,
            calories_per_serving: 0,
            food_type: FoodType::Composite,
            components: comps,
        };
        proof {
            assert(seq!['B'] != seq!['C']) by {
                assert(seq!['B'][0] != seq!['C'][0]);
            }
            lemma_parse_food_wf(line@);
            assert(f@ =~~= parse_food_line_spec(line@).unwrap());
        }
        Some(f)
    }
}

/// What loading makes of a stored food: a basic food is itself; a
/// composite food starts over with zero calories.
pub open spec fn as_loaded(m: FoodModel) -> FoodModel {
    FoodModel {
        calories_per_serving: if m.food_type is Basic {
            m.calories_per_serving
        } else {
            0
        },
        ..m
    }
}

/// Parsing inverts rendering, except that a composite food's calories
/// are left for the loader to recompute.
pub proof fn lemma_food_line_round_trip(m: FoodModel)
    requires
        wf_model(m),
    ensures
        parse_food_line_spec(food_line_spec(m)) == Some(as_loaded(m)),
{
    let tag = if m.food_type is Basic {
        seq!['B']
    } else {
        seq!['C']
    };
    let last = if m.food_type is Basic {
        amount_digits(m.calories_per_serving as nat)
    } else {
        components_part(m)
    };
    let parts5 = seq![tag, m.id, m.name, keywords_part(m), last];
    let line = food_line_spec(m);
    assert(seq!['B'] != seq!['C']) by {
        assert(seq!['B'][0] != seq!['C'][0]);
    }
    // every piece avoids '|'
    lemma_join_avoids_pipe(m, tag, last, parts5);
    lemma_split_of_join(parts5, '|');
    assert(split_spec(line, '|') =~~= parts5);
    // keywords split back
    assert forall|i: int, j: int|
        0 <= i < m.keywords.len() && 0 <= j < m.keywords[i].len() implies #[trigger] m
        .keywords[i][j] != ',' by {
        assert(keyword_ok(m.keywords[i]));
    }
    lemma_split_of_join(m.keywords, ',');
    if m.food_type is Basic {
        lemma_amount_round_trip(m.calories_per_serving);
        assert(parse_food_line_spec(line).unwrap() =~~= as_loaded(m));
    } else {
        let digits = Seq::new(m.components.len(), |i: int| component_digits(m.components[i]));
        assert forall|i: int, j: int|
            0 <= i < digits.len() && 0 <= j < digits[i].len() implies #[trigger] digits[i][j]
            != ',' by {
            lemma_component_digits_avoid(m.components[i], ',');
        }
        lemma_split_of_join(digits, ',');
        lemma_components_round_trip(m.components);
        assert(parse_food_line_spec(line).unwrap() =~~= as_loaded(m));
    }
}

/// A component rendering avoids everything its id, ':' and digits avoid.
proof fn lemma_component_digits_avoid(c: (Seq<char>, u32), x: char)
    requires
        id_ok(c.0),
        x != ':',
        !is_digit(x),
        x != '.',
        x == ',' || x == '|',
    ensures
        forall|k: int|
            0 <= k < component_digits(c).len() ==> #[trigger] component_digits(c)[k] != x,
{
    let s = component_digits(c);
    lemma_amount_avoids(c.1 as nat, x);
    assert forall|k: int| 0 <= k < s.len() implies #[trigger] s[k] != x by {
        if k < c.0.len() {
            assert(s[k] == c.0[k]);
        } else if k == c.0.len() {
            assert(s[k] == ':');
        } else {
            assert(s[k] == amount_digits(c.1 as nat)[k - c.0.len() - 1]);
        }
    }
}

/// Parsing a rendered component list returns the same components.
proof fn lemma_components_round_trip(comps: Seq<(Seq<char>, u32)>)
    requires
        forall|i: int| 0 <= i < comps.len() ==> id_ok((#[trigger] comps[i]).0),
    ensures
        parse_components_spec(Seq::new(comps.len(), |i: int| component_digits(comps[i])))
            == Some(comps),
    decreases comps.len(),
{
    let digits = Seq::new(comps.len(), |i: int| component_digits(comps[i]));
    if comps.len() == 0 {
        assert(comps =~= Seq::<(Seq<char>, u32)>::empty());
        assert(parse_components_spec(digits) == Some(Seq::<(Seq<char>, u32)>::empty()));
    } else {
        let front = comps.drop_last();
        assert forall|i: int| 0 <= i < front.len() implies id_ok((#[trigger] front[i]).0) by {
            assert(front[i] == comps[i]);
        }
        lemma_components_round_trip(front);
        assert(digits.drop_last() =~= Seq::new(front.len(), |i: int| component_digits(front[i])));
        // one component parses back
        let c = comps.last();
        let cd = component_digits(c);
        assert(digits.last() == cd);
        let two = seq![c.0, amount_digits(c.1 as nat)];
        assert forall|i: int, j: int|
            0 <= i < two.len() && 0 <= j < two[i].len() implies #[trigger] two[i][j] != ':' by {
            if i == 0 {
                assert(two[i] == c.0);
            } else {
                assert(two[i] == amount_digits(c.1 as nat));
                lemma_amount_avoids_colon(c.1 as nat);
            }
        }
        assert(two.drop_first() =~= seq![amount_digits(c.1 as nat)]);
        assert(join_spec(seq![amount_digits(c.1 as nat)], ':') == amount_digits(c.1 as nat));
        assert(join_spec(two, ':') == c.0 + seq![':'] + amount_digits(c.1 as nat));
        lemma_split_of_join(two, ':');
        assert(split_spec(cd, ':') =~~= two);
        lemma_amount_round_trip(c.1);
        assert(parse_component_spec(cd) == Some((c.0, c.1)));
        assert((c.0, c.1) == c);
        assert(parse_components_spec(digits).unwrap() =~= comps);
    }
}

proof fn lemma_amount_avoids_colon(n: nat)
    ensures
        forall|k: int|
            0 <= k < amount_digits(n).len() ==> #[trigger] amount_digits(n)[k] != ':',
{
    lemma_amount_avoids(n, ':');
}

/// Every field of a rendered food line avoids the field separator.
proof fn lemma_join_avoids_pipe(m: FoodModel, tag: Seq<char>, last: Seq<char>, parts5: Seq<Seq<char>>)
    requires
        wf_model(m),
        tag == if m.food_type is Basic {
            seq!['B']
        } else {
            seq!['C']
        },
        last == if m.food_type is Basic {
            amount_digits(m.calories_per_serving as nat)
        } else {
            components_part(m)
        },
        parts5 == seq![tag, m.id, m.name, keywords_part(m), last],
    ensures
        forall|i: int, j: int|
            0 <= i < parts5.len() && 0 <= j < parts5[i].len() ==> #[trigger] parts5[i][j] != '|',
{
    assert forall|i: int, j: int|
        0 <= i < m.keywords.len() && 0 <= j < m.keywords[i].len() implies #[trigger] m
        .keywords[i][j] != '|' by {
        assert(keyword_ok(m.keywords[i]));
    }
    lemma_join_avoids(m.keywords, ',', '|');
    if m.food_type is Basic {
        lemma_amount_avoids(m.calories_per_serving as nat, '|');
    } else {
        let digits = Seq::new(m.components.len(), |i: int| component_digits(m.components[i]));
        assert forall|i: int, j: int|
            0 <= i < digits.len() && 0 <= j < digits[i].len() implies #[trigger] digits[i][j]
            != '|' by {
            lemma_component_digits_avoid(m.components[i], '|');
        }
        lemma_join_avoids(digits, ',', '|');
    }
    assert forall|i: int, j: int|
        0 <= i < parts5.len() && 0 <= j < parts5[i].len() implies #[trigger] parts5[i][j]
        != '|' by {
        if i == 0 {
            assert(parts5[i] == tag);
        } else if i == 1 {
            assert(parts5[i] == m.id);
        } else if i == 2 {
            assert(parts5[i] == m.name);
        } else if i == 3 {
            assert(parts5[i] == keywords_part(m));
        } else {
            assert(parts5[i] == last);
        }
    }
}

/// Splitting never yields an empty list of pieces.
pub proof fn lemma_split_len(s: Seq<char>, sep: char)
    ensures
        split_spec(s, sep).len() >= 1,
{
}

/// A parsed food is well formed.
pub proof fn lemma_parse_food_wf(s: Seq<char>)
    requires
        parse_food_line_spec(s) is Some,
    ensures
        wf_model(parse_food_line_spec(s).unwrap()),
{
    let parts = split_spec(s, '|');
    let m = parse_food_line_spec(s).unwrap();
    lemma_split_len(parts[3], ',');
    assert(seq!['B'] != seq!['C']) by {
        assert(seq!['B'][0] != seq!['C'][0]);
    }
    if parts[0] == seq!['C'] {
        lemma_split_len(parts[4], ',');
        assert(parse_components_spec(split_spec(parts[4], ',')) is Some);
        lemma_parse_components_props(split_spec(parts[4], ','));
    }
}

/// The views of a list of foods.
pub open spec fn food_models(v: Seq<Food>) -> Seq<FoodModel> {
    Seq::new(v.len(), |i: int| v[i]@)
}

/// Replaces the entry with the same id, or appends a new one.
pub open spec fn upsert_spec(ms: Seq<FoodModel>, m: FoodModel) -> Seq<FoodModel> {
    let i = food_index(ms, m.id);
    if i < ms.len() {
        ms.update(i, m)
    } else {
        ms.push(m)
    }
}

/// Clamps a calorie total into the stored range.
pub open spec fn clamp_cal(x: int) -> int {
    if x > u32::MAX {
        u32::MAX as int
    } else {
        x
    }
}

/// The calories of a composite food against a catalog: for each
/// component, the referenced food's calories per serving times the
/// serving count, scaled back to hundredths; missing references count
/// as zero.
pub open spec fn comp_sum(ms: Seq<FoodModel>, comps: Seq<(Seq<char>, u32)>) -> int
    decreases comps.len(),
{
    if comps.len() == 0 {
        0
    } else {
        comp_sum(ms, comps.drop_last()) + (match find_food(ms, comps.last().0) {
            Some(f) => (f.calories_per_serving as int) * (comps.last().1 as int) / 100,
            None => 0,
        })
    }
}

pub proof fn lemma_comp_sum_nonneg(ms: Seq<FoodModel>, comps: Seq<(Seq<char>, u32)>)
    ensures
        comp_sum(ms, comps) >= 0,
    decreases comps.len(),
{
    if comps.len() > 0 {
        lemma_comp_sum_nonneg(ms, comps.drop_last());
    }
}

/// One pass of the loader's recalculation: entry `i`, when composite,
/// has its calories recomputed against the current catalog.
pub open spec fn recalc_step(ms: Seq<FoodModel>, i: int) -> Seq<FoodModel> {
    if 0 <= i < ms.len() && ms[i].food_type is Composite {
        ms.update(
            i,
            FoodModel {
                calories_per_serving: clamp_cal(comp_sum(ms, ms[i].components)) as u32,
                ..ms[i]
            },
        )
    } else {
        ms
    }
}

/// The recalculation pass applied to entries `0..k` in order.
pub open spec fn recalc_upto(ms: Seq<FoodModel>, k: int) -> Seq<FoodModel>
    decreases k,
{
    if k <= 0 {
        ms
    } else {
        recalc_step(recalc_upto(ms, k - 1), k - 1)
    }
}

/// What loading a list of lines builds, before the recalculation pass:
/// lines are parsed in order; lines that do not parse are skipped; a
/// parsed food replaces any earlier entry with its id; a composite
/// food's calories are computed against the entries loaded so far.
pub open spec fn fold_lines(lines: Seq<Seq<char>>) -> Seq<FoodModel>
    decreases lines.len(),
{
    if lines.len() == 0 {
        Seq::empty()
    } else {
        let prev = fold_lines(lines.drop_last());
        match parse_food_line_spec(lines.last()) {
            None => prev,
            Some(m) => upsert_spec(
                prev,
                if m.food_type is Composite {
                    FoodModel {
                        calories_per_serving: clamp_cal(comp_sum(prev, m.components)) as u32,
                        ..m
                    }
                } else {
                    m
                },
            ),
        }
    }
}

/// The in-memory food catalog: insertion-ordered, with unique ids.
pub struct FoodRepository {
    pub foods: Vec<Food>,
}

impl FoodRepository {
    pub open spec fn models(&self) -> Seq<FoodModel> {
        food_models(self.foods@)
    }

    /// Every entry well formed, and no id occurs twice.
    pub open spec fn wf(&self) -> bool {
        &&& forall|i: int| 0 <= i < self.models().len() ==> wf_model(#[trigger] self.models()[i])
        &&& forall|i: int, j: int|
            0 <= i < j < self.models().len() ==> (#[trigger] self.models()[i]).id != (
            #[trigger] self.models()[j]).id
    }

    /// An empty catalog.
    pub fn new() -> (r: FoodRepository)
        ensures
            r.wf(),
            r.models() =~= Seq::<FoodModel>::empty(),
    {
        FoodRepository { foods: Vec::new() }
    }

    /// Index of the entry with this id, or the length when absent.
    fn position_of(&self, id: &String) -> (r: usize)
        ensures
            r == food_index(self.models(), id@),
    {
        let mut i: usize = 0;
        while i < self.foods.len()
            invariant
                0 <= i <= self.foods@.len(),
                forall|j: int| 0 <= j < i ==> (#[trigger] self.models()[j]).id != id@,
            decreases self.foods@.len() - i,
        {
            if self.foods[i].id == *id {
                proof {
                    lemma_food_index_is(self.models(), id@, i as int);
                }
                return i;
            }
            assert(self.models()[i as int].id != id@);
            i = i + 1;
        }
        proof {
            lemma_food_index_is(self.models(), id@, self.models().len() as int);
        }
        self.foods.len()
    }

    /// The food with this id, if present.
    pub fn get_food(&self, id: &str) -> (r: Option<&Food>)
        ensures
            match r {
                Some(f) => find_food(self.models(), id@) == Some(f@),
                None => find_food(self.models(), id@) is None,
            },
    {
        let key = id.to_owned();
        let i = self.position_of(&key);
        proof {
            lemma_food_index(self.models(), id@);
        }
        if i < self.foods.len() {
            Some(&self.foods[i])
        } else {
            None
        }
    }

    /// All foods, in insertion order.
    pub fn get_all_foods(&self) -> (r: &Vec<Food>)
        ensures
            r@ == self.foods@,
    {
        &self.foods
    }

    /// All foods, in insertion order.
    pub fn get_foods(&self) -> (r: &Vec<Food>)
        ensures
            r@ == self.foods@,
    {
        &self.foods
    }

    /// Adds a new food; refused when the id is already taken.
    pub fn add_food(&mut self, food: Food) -> (r: Result<(), String>)
        requires
            old(self).wf(),
            food.wf(),
        ensures
            final(self).wf(),
            find_food(old(self).models(), food@.id) is Some ==> r is Err && final(self).models()
                =~= old(self).models() && r.unwrap_err()@ == "Food with ID "@ + food@.id
                + " already exists"@,
            find_food(old(self).models(), food@.id) is None ==> r is Ok && final(self).models()
                =~= old(self).models().push(food@),
    {
        let i = self.position_of(&food.id);
        proof {
            lemma_food_index(self.models(), food@.id);
        }
        if i < self.foods.len() {
            let mut msg = String::from_str("Food with ID ");
            msg.append(food.id.as_str());
            msg.append(" already exists");
            Err(msg)
        } else {
            self.foods.push(food);
            proof {
                assert(self.models() =~= old(self).models().push(food@));
            }
            Ok(())
        }
    }

    /// Replaces the food with the same id; refused when absent.
    pub fn update_food(&mut self, food: Food) -> (r: Result<(), String>)
        requires
            old(self).wf(),
            food.wf(),
        ensures
            final(self).wf(),
            find_food(old(self).models(), food@.id) is Some ==> r is Ok && final(self).models()
                =~= old(self).models().update(food_index(old(self).models(), food@.id), food@),
            find_food(old(self).models(), food@.id) is None ==> r is Err && final(self).models()
                =~= old(self).models() && r.unwrap_err()@ == "Food with ID "@ + food@.id
                + " not found"@,
    {
        let i = self.position_of(&food.id);
        proof {
            lemma_food_index(self.models(), food@.id);
        }
        if i < self.foods.len() {
            proof {
                assert(self.models()[i as int].id == food@.id);
            }
            self.foods.set(i, food);
            proof {
                assert(self.models() =~= old(self).models().update(i as int, food@));
            }
            Ok(())
        } else {
            let mut msg = String::from_str("Food with ID ");
            msg.append(food.id.as_str());
            msg.append(" not found");
            Err(msg)
        }
    }

    /// Removes and returns the food with this id, if present.
    pub fn remove_food(&mut self, id: &str) -> (r: Option<Food>)
        requires
            old(self).wf(),
        ensures
            final(self).wf(),
            match r {
                Some(f) => find_food(old(self).models(), id@) == Some(f@) && final(self).models()
                    =~= old(self).models().remove(food_index(old(self).models(), id@)),
                None => find_food(old(self).models(), id@) is None && final(self).models() =~= old(
                    self,
                ).models(),
            },
    {
        let key = id.to_owned();
        let i = self.position_of(&key);
        proof {
            lemma_food_index(self.models(), id@);
        }
        if i < self.foods.len() {
            let f = self.foods.remove(i);
            proof {
                assert(self.models() =~= old(self).models().remove(i as int));
            }
            Some(f)
        } else {
            None
        }
    }

    /// Inserts or replaces by id, as the loader does.
    pub fn upsert_food(&mut self, food: Food)
        requires
            old(self).wf(),
            food.wf(),
        ensures
            final(self).wf(),
            final(self).models() =~= upsert_spec(old(self).models(), food@),
    {
        let i = self.position_of(&food.id);
        proof {
            lemma_food_index(self.models(), food@.id);
        }
        if i < self.foods.len() {
            proof {
                assert(self.models()[i as int].id == food@.id);
            }
            self.foods.set(i, food);
            proof {
                assert(self.models() =~= old(self).models().update(
                    food_index(old(self).models(), food@.id),
                    food@,
                ));
            }
        } else {
            self.foods.push(food);
            proof {
                assert(self.models() =~= old(self).models().push(food@));
            }
        }
    }

    /// The calories of a component list against this catalog, clamped
    /// into the stored range.
    pub fn component_sum_of(&self, comps: &Vec<(String, u32)>) -> (r: u32)
        ensures
            r == clamp_cal(comp_sum(self.models(), component_views(comps@))),
    {
        let ghost views = component_views(comps@);
        let mut acc: u64 = 0;
        let mut i: usize = 0;
        while i < comps.len()
            invariant
                0 <= i <= comps@.len(),
                views == component_views(comps@),
                acc == clamp_cal(comp_sum(self.models(), views.take(i as int))),
                acc <= u32::MAX,
            decreases comps@.len() - i,
        {
            proof {
                lemma_comp_sum_nonneg(self.models(), views.take(i as int));
                lemma_comp_sum_nonneg(self.models(), views.take(i + 1));
                assert(views.take(i + 1).drop_last() =~= views.take(i as int));
                assert(views.take(i + 1).last() == views[i as int]);
            }
            let term: u64 = match self.get_food(comps[i].0.as_str()) {
                Some(f) => {
                    proof {
                        assert((f.calories_per_serving as u64) * (comps@[i as int].1 as u64) <= (
                        u32::MAX as u64) * (u32::MAX as u64)) by (nonlinear_arith)
                            requires
                                f.calories_per_serving <= u32::MAX,
                                comps@[i as int].1 <= u32::MAX,
                        ;
                    }
                    (f.calories_per_serving as u64) * (comps[i].1 as u64) / 100
                },
                None => 0,
            };
            let next = acc + term;
            acc = if next > u32::MAX as u64 {
                u32::MAX as u64
            } else {
                next
            };
            i = i + 1;
        }
        proof {
            assert(views.take(views.len() as int) =~= views);
        }
        acc as u32
    }

    /// Recomputes every composite food's calories, in catalog order.
    pub fn recalculate_composites(&mut self)
        requires
            old(self).wf(),
        ensures
            final(self).wf(),
            final(self).models() =~= recalc_upto(old(self).models(), old(self).models().len() as int),
    {
        let ghost orig = self.models();
        let n = self.foods.len();
        let mut idx: usize = 0;
        while idx < n
            invariant
                0 <= idx <= n,
                orig == old(self).models(),
                n == orig.len(),
                self.foods@.len() == n,
                self.wf(),
                self.models() =~= recalc_upto(orig, idx as int),
            decreases n - idx,
        {
            let is_composite = match self.foods[idx].food_type {
                FoodType::Composite => true,
                FoodType::Basic => false,
            };
            if is_composite {
                let c = self.component_sum_of_index(idx);
                let mut f = self.foods[idx].duplicate();
                f.calories_per_serving = c;
                proof {
                    assert(f@ =~~= (FoodModel {
                        calories_per_serving: clamp_cal(
                            comp_sum(self.models(), self.models()[idx as int].components),
                        ) as u32,
                        ..self.models()[idx as int]
                    }));
                }
                let ghost pre = self.models();
                self.foods.set(idx, f);
                proof {
                    assert(self.models() =~= pre.update(idx as int, f@));
                    assert(self.models() =~= recalc_step(pre, idx as int));
                }
            } else {
                proof {
                    assert(self.models() =~= recalc_step(self.models(), idx as int));
                }
            }
            idx = idx + 1;
        }
    }

    /// The component sum for the entry at `idx`.
    fn component_sum_of_index(&self, idx: usize) -> (r: u32)
        requires
            idx < self.foods@.len(),
        ensures
            r == clamp_cal(comp_sum(self.models(), self.models()[idx as int].components)),
    {
        let f = &self.foods[idx];
        let r = self.component_sum_of(&f.components);
        r
    }

    /// The foods that match a keyword search, in catalog order.
    pub fn search_foods(&self, keywords: &Vec<String>, match_all: bool) -> (r: Vec<Food>)
        ensures
            food_models(r@) =~= matching_models(
                self.models(),
                views_of(keywords@),
                match_all,
            ),
    {
        let mut out: Vec<Food> = Vec::new();
        let mut i: usize = 0;
        while i < self.foods.len()
            invariant
                0 <= i <= self.foods@.len(),
                food_models(out@) =~= matching_models(
                    self.models().take(i as int),
                    views_of(keywords@),
                    match_all,
                ),
            decreases self.foods@.len() - i,
        {
            let ghost pre = food_models(out@);
            proof {
                assert(self.models().take(i + 1).drop_last() =~= self.models().take(i as int));
                assert(self.models().take(i + 1).last() == self.models()[i as int]);
            }
            if self.foods[i].matches_keywords(keywords, match_all) {
                proof {
                    lemma_matches_bridge(self.models()[i as int], keywords@, match_all);
                }
                out.push(self.foods[i].duplicate());
                proof {
                    assert(food_models(out@) =~= pre.push(self.models()[i as int]));
                }
            } else {
                proof {
                    lemma_matches_bridge(self.models()[i as int], keywords@, match_all);
                }
            }
            i = i + 1;
        }
        proof {
            assert(self.models().take(self.models().len() as int) =~= self.models());
        }
        out
    }

    /// Renders the whole catalog, one line per food, in catalog order.
    pub fn export_lines(&self) -> (r: Vec<String>)
        requires
            self.wf(),
        ensures
            r@.len() == self.models().len(),
            forall|i: int|
                0 <= i < r@.len() ==> (#[trigger] r@[i])@ == food_line_spec(self.models()[i]),
    {
        let mut out: Vec<String> = Vec::new();
        let mut i: usize = 0;
        while i < self.foods.len()
            invariant
                0 <= i <= self.foods@.len(),
                self.wf(),
                out@.len() == i,
                forall|j: int|
                    0 <= j < i ==> (#[trigger] out@[j])@ == food_line_spec(self.models()[j]),
            decreases self.foods@.len() - i,
        {
            proof {
                assert(wf_model(self.models()[i as int]));
            }
            out.push(food_line(&self.foods[i]));
            i = i + 1;
        }
        out
    }

    /// Rebuilds a catalog from stored lines: parse each line in order,
    /// skip lines that do not match the format, replace earlier entries
    /// on a repeated id, compute a composite food's calories from the
    /// entries loaded before it, and finish with a recalculation pass.
    pub fn import_lines(lines: &Vec<String>) -> (r: FoodRepository)
        ensures
            r.wf(),
            r.models() =~= recalc_upto(
                fold_lines(views_of(lines@)),
                fold_lines(views_of(lines@)).len() as int,
            ),
    {
        let ghost lviews = views_of(lines@);
        let mut repo = FoodRepository::new();
        let mut i: usize = 0;
        while i < lines.len()
            invariant
                0 <= i <= lines@.len(),
                lviews == views_of(lines@),
                repo.wf(),
                repo.models() =~= fold_lines(lviews.take(i as int)),
            decreases lines@.len() - i,
        {
            proof {
                assert(lviews.take(i + 1).drop_last() =~= lviews.take(i as int));
                assert(lviews.take(i + 1).last() == lviews[i as int]);
            }
            match parse_food_line(lines[i].as_str()) {
                None => {},
                Some(f) => {
                    let is_composite = match f.food_type {
                        FoodType::Composite => true,
                        FoodType::Basic => false,
                    };
                    if is_composite {
                        let c = repo.component_sum_of(&f.components);
                        let mut g = f;
                        g.calories_per_serving = c;
                        proof {
                            assert(g@ =~~= (FoodModel {
                                calories_per_serving: clamp_cal(
                                    comp_sum(
                                        repo.models(),
                                        parse_food_line_spec(lviews[i as int]).unwrap().components,
                                    ),
                                ) as u32,
                                ..parse_food_line_spec(lviews[i as int]).unwrap()
                            }));
                        }
                        repo.upsert_food(g);
                    } else {
                        repo.upsert_food(f);
                    }
                },
            }
            i = i + 1;
        }
        proof {
            assert(lviews.take(lviews.len() as int) =~= lviews);
        }
        repo.recalculate_composites();
        repo
    }
}

/// A catalog as the loader leaves it: entries well formed with unique
/// ids, every component reference resolving to an earlier entry, and
/// every composite food's calories agreeing with its components.
pub open spec fn consistent_catalog(ms: Seq<FoodModel>) -> bool {
    &&& forall|i: int| 0 <= i < ms.len() ==> wf_model(#[trigger] ms[i])
    &&& forall|i: int, j: int|
        0 <= i < j < ms.len() ==> (#[trigger] ms[i]).id != (#[trigger] ms[j]).id
    &&& forall|i: int|
        0 <= i < ms.len() && (#[trigger] ms[i]).food_type is Composite
            ==> ms[i].calories_per_serving == clamp_cal(comp_sum(ms, ms[i].components))
    &&& forall|i: int, c: int|
        0 <= i < ms.len() && (#[trigger] ms[i]).food_type is Composite && 0 <= c
            < ms[i].components.len() ==> food_index(ms, (#[trigger] ms[i].components[c]).0) < i
}

/// A hit inside a prefix is the same hit in the whole sequence.
proof fn lemma_find_food_prefix(ms: Seq<FoodModel>, id: Seq<char>, k: int)
    requires
        0 <= food_index(ms, id) < k <= ms.len(),
    ensures
        food_index(ms.take(k), id) == food_index(ms, id),
        find_food(ms.take(k), id) == find_food(ms, id),
{
    let i = food_index(ms, id);
    lemma_food_index(ms, id);
    assert forall|j: int| 0 <= j < i implies (#[trigger] ms.take(k)[j]).id != id by {
        assert(ms.take(k)[j] == ms[j]);
    }
    assert(ms.take(k)[i] == ms[i]);
    lemma_food_index_is(ms.take(k), id, i);
}

/// A component sum only reads the entries its references resolve to,
/// so a prefix holding them all gives the same sum.
proof fn lemma_comp_sum_prefix(ms: Seq<FoodModel>, comps: Seq<(Seq<char>, u32)>, k: int)
    requires
        0 <= k <= ms.len(),
        forall|c: int| 0 <= c < comps.len() ==> food_index(ms, (#[trigger] comps[c]).0) < k,
    ensures
        comp_sum(ms.take(k), comps) == comp_sum(ms, comps),
    decreases comps.len(),
{
    if comps.len() > 0 {
        assert forall|c: int|
            0 <= c < comps.drop_last().len() implies food_index(
            ms,
            (#[trigger] comps.drop_last()[c]).0,
        ) < k by {
            assert(comps.drop_last()[c] == comps[c]);
        }
        lemma_comp_sum_prefix(ms, comps.drop_last(), k);
        assert(comps[comps.len() - 1] == comps.last());
        lemma_food_index(ms, comps.last().0);
        lemma_find_food_prefix(ms, comps.last().0, k);
    }
}

/// Loading the exported lines rebuilds each prefix of a consistent
/// catalog unchanged.
proof fn lemma_fold_export(ms: Seq<FoodModel>, k: int)
    requires
        consistent_catalog(ms),
        0 <= k <= ms.len(),
    ensures
        fold_lines(Seq::new(ms.len(), |i: int| food_line_spec(ms[i])).take(k)) =~~= ms.take(k),
    decreases k,
{
    let lines = Seq::new(ms.len(), |i: int| food_line_spec(ms[i]));
    if k > 0 {
        lemma_fold_export(ms, k - 1);
        assert(lines.take(k).drop_last() =~= lines.take(k - 1));
        assert(lines.take(k).last() == food_line_spec(ms[k - 1]));
        assert(wf_model(ms[k - 1]));
        lemma_food_line_round_trip(ms[k - 1]);
        let prev = fold_lines(lines.take(k - 1));
        assert(prev =~~= ms.take(k - 1));
        let m = as_loaded(ms[k - 1]);
        // the id is fresh in the prefix, so the upsert appends
        assert forall|j: int| 0 <= j < k - 1 implies (#[trigger] ms.take(k - 1)[j]).id != m.id by {
            assert(ms.take(k - 1)[j] == ms[j]);
            assert(ms[j].id != ms[k - 1].id);
        }
        lemma_food_index_is(ms.take(k - 1), m.id, k - 1);
        if ms[k - 1].food_type is Composite {
            assert forall|c: int|
                0 <= c < m.components.len() implies food_index(ms, (#[trigger] m.components[c]).0)
                < k - 1 by {
                assert(m.components[c] == ms[k - 1].components[c]);
            }
            lemma_comp_sum_prefix(ms, m.components, k - 1);
            lemma_comp_sum_nonneg(ms, m.components);
            assert((FoodModel {
                calories_per_serving: clamp_cal(comp_sum(prev, m.components)) as u32,
                ..m
            }) =~~= ms[k - 1]);
            assert(fold_lines(lines.take(k)) =~~= prev.push(ms[k - 1]));
        } else {
            assert(m =~~= ms[k - 1]);
            assert(fold_lines(lines.take(k)) =~~= prev.push(ms[k - 1]));
        }
        assert(prev.push(ms[k - 1]) =~~= ms.take(k));
    } else {
        assert(lines.take(0) =~= Seq::<Seq<char>>::empty());
        assert(ms.take(0) =~= Seq::<FoodModel>::empty());
    }
}

/// The recalculation pass fixes nothing in a consistent catalog.
proof fn lemma_recalc_fix(ms: Seq<FoodModel>, k: int)
    requires
        consistent_catalog(ms),
        0 <= k <= ms.len(),
    ensures
        recalc_upto(ms, k) =~~= ms,
    decreases k,
{
    if k > 0 {
        lemma_recalc_fix(ms, k - 1);
        assert(recalc_upto(ms, k) =~~= recalc_step(recalc_upto(ms, k - 1), k - 1));
        if ms[k - 1].food_type is Composite {
            lemma_comp_sum_nonneg(ms, ms[k - 1].components);
            assert((FoodModel {
                calories_per_serving: clamp_cal(comp_sum(ms, ms[k - 1].components)) as u32,
                ..ms[k - 1]
            }) =~~= ms[k - 1]);
            assert(recalc_step(ms, k - 1) =~~= ms.update(k - 1, ms[k - 1]));
            assert(ms.update(k - 1, ms[k - 1]) =~~= ms);
        }
    }
}

/// Storing and reloading restores a consistent catalog exactly: the
/// exported lines fold back to the same entries, and the closing
/// recalculation pass changes none of them.
pub proof fn lemma_catalog_round_trip(ms: Seq<FoodModel>)
    requires
        consistent_catalog(ms),
    ensures
        fold_lines(Seq::new(ms.len(), |i: int| food_line_spec(ms[i]))) =~~= ms,
        recalc_upto(ms, ms.len() as int) =~~= ms,
{
    let lines = Seq::new(ms.len(), |i: int| food_line_spec(ms[i]));
    lemma_fold_export(ms, ms.len() as int);
    assert(lines.take(ms.len() as int) =~= lines);
    assert(ms.take(ms.len() as int) =~= ms);
    lemma_recalc_fix(ms, ms.len() as int);
}

/// Undoing an add restores the catalog: removing a fresh id's entry
/// right after appending it gives back the original sequence.
pub proof fn lemma_add_then_remove(ms: Seq<FoodModel>, m: FoodModel)
    requires
        find_food(ms, m.id) is None,
    ensures
        food_index(ms.push(m), m.id) == ms.len(),
        ms.push(m).remove(food_index(ms.push(m), m.id)) =~= ms,
{
    lemma_food_index(ms, m.id);
    assert forall|j: int| 0 <= j < ms.len() implies (#[trigger] ms.push(m)[j]).id != m.id by {
        assert(ms.push(m)[j] == ms[j]);
    }
    lemma_food_index_is(ms.push(m), m.id, ms.len() as int);
}

/// Undoing an update restores the catalog: writing the captured entry
/// back over the same id gives back the original sequence.
pub proof fn lemma_update_then_restore(ms: Seq<FoodModel>, m: FoodModel)
    requires
        find_food(ms, m.id) is Some,
    ensures
        ({
            let i = food_index(ms, m.id);
            let replaced = ms.update(i, m);
            food_index(replaced, m.id) == i && replaced.update(
                food_index(replaced, m.id),
                ms[i],
            ) =~= ms
        }),
{
    lemma_food_index(ms, m.id);
    let i = food_index(ms, m.id);
    let replaced = ms.update(i, m);
    assert forall|j: int| 0 <= j < i implies (#[trigger] replaced[j]).id != m.id by {
        assert(replaced[j] == ms[j]);
        assert(ms[j].id != m.id);
    }
    assert(replaced[i].id == m.id);
    lemma_food_index_is(replaced, m.id, i);
}

/// Whether a food matches a keyword search.
pub open spec fn model_matches(m: FoodModel, kws: Seq<Seq<char>>, match_all: bool) -> bool {
    if match_all {
        forall|i: int| 0 <= i < kws.len() ==> crate::food::has_keyword(m, #[trigger] kws[i])
    } else {
        exists|i: int| 0 <= i < kws.len() && crate::food::has_keyword(m, #[trigger] kws[i])
    }
}

/// The foods of `ms` that match a keyword search, in order.
pub open spec fn matching_models(ms: Seq<FoodModel>, kws: Seq<Seq<char>>, match_all: bool) -> Seq<
    FoodModel,
>
    decreases ms.len(),
{
    if ms.len() == 0 {
        Seq::empty()
    } else {
        matching_models(ms.drop_last(), kws, match_all) + if model_matches(
            ms.last(),
            kws,
            match_all,
        ) {
            seq![ms.last()]
        } else {
            Seq::empty()
        }
    }
}

/// The exec search result agrees with the model-level predicate.
proof fn lemma_matches_bridge(m: FoodModel, kws: Seq<String>, match_all: bool)
    ensures
        model_matches(m, views_of(kws), match_all) == if match_all {
            forall|i: int|
                0 <= i < kws.len() ==> crate::food::has_keyword(m, (#[trigger] kws[i])@)
        } else {
            exists|i: int|
                0 <= i < kws.len() && crate::food::has_keyword(m, (#[trigger] kws[i])@)
        },
{
    let vk = views_of(kws);
    if match_all {
        if forall|i: int| 0 <= i < kws.len() ==> crate::food::has_keyword(m, (#[trigger] kws[i])@) {
            assert forall|i: int|
                0 <= i < vk.len() implies crate::food::has_keyword(m, #[trigger] vk[i]) by {
                assert(vk[i] == kws[i]@);
            }
        }
        if model_matches(m, vk, match_all) {
            assert forall|i: int|
                0 <= i < kws.len() implies crate::food::has_keyword(m, (#[trigger] kws[i])@) by {
                assert(vk[i] == kws[i]@);
            }
        }
    } else {
        if exists|i: int| 0 <= i < kws.len() && crate::food::has_keyword(m, (#[trigger] kws[i])@) {
            let w = choose|i: int|
                0 <= i < kws.len() && crate::food::has_keyword(m, (#[trigger] kws[i])@);
            assert(vk[w] == kws[w]@);
            assert(model_matches(m, vk, match_all));
        }
        if model_matches(m, vk, match_all) {
            let w = choose|i: int|
                0 <= i < vk.len() && crate::food::has_keyword(m, #[trigger] vk[i]);
            assert(vk[w] == kws[w]@);
        }
    }
}

} // verus!
