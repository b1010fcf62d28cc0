//! Catalog entries: basic foods with a direct calorie value, and
//! composite foods whose calories are a weighted sum over components.
//! Calories and serving counts are carried in hundredths.

use vstd::prelude::*;
use vstd::string::*;

use crate::text::views_of;

verus! {

#[derive(Clone, Copy, PartialEq, Eq, Structural, Debug)]
pub enum FoodType {
    Basic,
    Composite,
}

/// The mathematical content of a food entry.
#[verifier::ext_equal]
pub struct FoodModel {
    pub id: Seq<char>,
    pub name: Seq<char>,
    pub keywords: Seq<Seq<char>>,
    /// Calories per serving, in hundredths of a kilocalorie.
    pub calories_per_serving: u32,
    pub food_type: FoodType,
    /// Component references: (food id, servings in hundredths).
    pub components: Seq<(Seq<char>, u32)>,
}

/// A food entry: a basic item carries its own calorie value and has no
/// components; a composite item lists components and carries the value
/// computed from them.
pub struct Food {
    pub id: String,
    pub name: String,
    pub keywords: Vec<String>,
    /// Calories per serving, in hundredths of a kilocalorie.
    pub calories_per_serving: u32,
    pub food_type: FoodType,
    /// Component references: (food id, servings in hundredths).
    pub components: Vec<(String, u32)>,
}

pub open spec fn component_views(v: Seq<(String, u32)>) -> Seq<(Seq<char>, u32)> {
    Seq::new(v.len(), |i: int| (v[i].0@, v[i].1))
}

impl View for Food {
    type V = FoodModel;

    open spec fn view(&self) -> FoodModel {
        FoodModel {
            id: self.id@,
            name: self.name@,
            keywords: views_of(self.keywords@),
            calories_per_serving: self.calories_per_serving,
            food_type: self.food_type,
            components: component_views(self.components@),
        }
    }
}

/// An identifier usable both as a field of the line format and inside a
/// comma-separated component list.
pub open spec fn id_ok(s: Seq<char>) -> bool {
    s.len() >= 1 && forall|i: int|
        0 <= i < s.len() ==> (#[trigger] s[i]) != '|' && s[i] != ',' && s[i] != ':' && s[i] != '\n'
}

/// A display name: any text free of the field separator and line breaks.
pub open spec fn name_ok(s: Seq<char>) -> bool {
    forall|i: int| 0 <= i < s.len() ==> (#[trigger] s[i]) != '|' && s[i] != '\n'
}

/// A search keyword, usable inside a comma-separated list.
pub open spec fn keyword_ok(s: Seq<char>) -> bool {
    s.len() >= 1 && forall|i: int|
        0 <= i < s.len() ==> (#[trigger] s[i]) != '|' && s[i] != ',' && s[i] != '\n'
}

/// A food the storage format can hold and return unchanged.  The
/// comma-joined keyword field cannot tell an empty list from one empty
/// keyword, so a storable food carries at least one nonempty keyword —
/// a deliberate restriction the format forces.
pub open spec fn wf_model(m: FoodModel) -> bool {
    &&& id_ok(m.id)
    &&& name_ok(m.name)
    &&& m.keywords.len() >= 1
    &&& forall|i: int| 0 <= i < m.keywords.len() ==> keyword_ok(#[trigger] m.keywords[i])
    &&& (m.food_type is Basic ==> m.components.len() == 0)
    &&& (m.food_type is Composite ==> m.components.len() >= 1 && forall|i: int|
        0 <= i < m.components.len() ==> id_ok((#[trigger] m.components[i]).0))
}

/// Whether `m` carries keyword `k`.
pub open spec fn has_keyword(m: FoodModel, k: Seq<char>) -> bool {
    exists|i: int| 0 <= i < m.keywords.len() && m.keywords[i] == k
}

pub fn char_allowed_in_id(c: char) -> (r: bool)
    ensures
        r == (c != '|' && c != ',' && c != ':' && c != '\n'),
{
    c != '|' && c != ',' && c != ':' && c != '\n'
}

pub fn is_id_ok(s: &str) -> (r: bool)
    ensures
        r == id_ok(s@),
{
    let n = s.unicode_len();
    if n == 0 {
        return false;
    }
    let mut i: usize = 0;
    while i < n
        invariant
            0 <= i <= n == s@.len(),
            forall|j: int|
                0 <= j < i ==> (#[trigger] s@[j]) != '|' && s@[j] != ',' && s@[j] != ':' && s@[j]
                    != '\n',
        decreases n - i,
    {
        if !char_allowed_in_id(s.get_char(i)) {
            return false;
        }
        i = i + 1;
    }
    true
}

pub fn is_name_ok(s: &str) -> (r: bool)
    ensures
        r == name_ok(s@),
{
    let n = s.unicode_len();
    let mut i: usize = 0;
    while i < n
        invariant
            0 <= i <= n == s@.len(),
            forall|j: int| 0 <= j < i ==> (#[trigger] s@[j]) != '|' && s@[j] != '\n',
        decreases n - i,
    {
        let c = s.get_char(i);
        if c == '|' || c == '\n' {
            return false;
        }
        i = i + 1;
    }
    true
}

pub fn is_keyword_ok(s: &str) -> (r: bool)
    ensures
        r == keyword_ok(s@),
{
    let n = s.unicode_len();
    if n == 0 {
        return false;
    }
    let mut i: usize = 0;
    while i < n
        invariant
            0 <= i <= n == s@.len(),
            forall|j: int| 0 <= j < i ==> (#[trigger] s@[j]) != '|' && s@[j] != ',' && s@[j] != '\n',
        decreases n - i,
    {
        let c = s.get_char(i);
        if c == '|' || c == ',' || c == '\n' {
            return false;
        }
        i = i + 1;
    }
    true
}

/// Whether the list `v` holds a string equal to `k`.
pub fn contains_text(v: &Vec<String>, k: &String) -> (r: bool)
    ensures
        r == exists|i: int| 0 <= i < v@.len() && (#[trigger] v@[i])@ == k@,
{
    let mut i: usize = 0;
    while i < v.len()
        invariant
            0 <= i <= v@.len(),
            forall|j: int| 0 <= j < i ==> (#[trigger] v@[j])@ != k@,
        decreases v@.len() - i,
    {
        if v[i] == *k {
            return true;
        }
        i = i + 1;
    }
    false
}

impl Food {
    pub open spec fn wf(self) -> bool {
        wf_model(self@)
    }

    /// Whether this food can be stored and reloaded faithfully.
    pub fn is_wf(&self) -> (r: bool)
        ensures
            r == self.wf(),
    {
        if !is_id_ok(self.id.as_str()) {
            return false;
        }
        if !is_name_ok(self.name.as_str()) {
            return false;
        }
        if self.keywords.len() == 0 {
            return false;
        }
        let mut i: usize = 0;
        while i < self.keywords.len()
            invariant
                0 <= i <= self.keywords@.len(),
                forall|j: int| 0 <= j < i ==> keyword_ok(#[trigger] self@.keywords[j]),
            decreases self.keywords@.len() - i,
        {
            if !is_keyword_ok(self.keywords[i].as_str()) {
                assert(!keyword_ok(self@.keywords[i as int]));
                return false;
            }
            assert(keyword_ok(self@.keywords[i as int]));
            i = i + 1;
        }
        match self.food_type {
            FoodType::Basic => self.components.len() == 0,
            FoodType::Composite => {
                if self.components.len() == 0 {
                    return false;
                }
                let mut i: usize = 0;
                while i < self.components.len()
                    invariant
                        0 <= i <= self.components@.len(),
                        self.food_type is Composite,
                        self.components@.len() >= 1,
                        forall|j: int| 0 <= j < i ==> id_ok((#[trigger] self@.components[j]).0),
                    decreases self.components@.len() - i,
                {
                    if !is_id_ok(self.components[i].0.as_str()) {
                        assert(!id_ok(self@.components[i as int].0));
                        return false;
                    }
                    assert(id_ok(self@.components[i as int].0));
                    i = i + 1;
                }
                true
            },
        }
    }

    /// A basic food with a direct calorie value and no components.
    pub fn new_basic(id: String, name: String, keywords: Vec<String>, calories: u32) -> (r: Food)
        ensures
            r@ == (FoodModel {
                id: id@,
                name: name@,
                keywords: views_of(keywords@),
                calories_per_serving: calories,
                food_type: FoodType::Basic,
                components: Seq::<(Seq<char>, u32)>::empty(),
            }),
    {
        let r = Food {
            id,
            name,
            keywords,
            calories_per_serving: calories,
            food_type: FoodType::Basic,
            components: Vec::new(),
        };
        proof {
            assert(component_views(r.components@) =~= Seq::<(Seq<char>, u32)>::empty());
        }
        r
    }

    /// A composite food over the given components; its calorie value
    /// starts at zero until computed from the components.
    pub fn new_composite(
        id: String,
        name: String,
        keywords: Vec<String>,
        components: Vec<(String, u32)>,
    ) -> (r: Food)
        ensures
            r@ == (FoodModel {
                id: id@,
                name: name@,
                keywords: views_of(keywords@),
                calories_per_serving: 0,
                food_type: FoodType::Composite,
                components: component_views(components@),
            }),
    {
        Food {
            id,
            name,
            keywords,
            calories_per_serving: 0,
            food_type: FoodType::Composite,
            components,
        }
    }

    /// Whether this food carries the given keyword.
    pub fn carries_keyword(&self, k: &String) -> (r: bool)
        ensures
            r == has_keyword(self@, k@),
    {
        let r = contains_text(&self.keywords, k);
        proof {
            if r {
                let w = choose|j: int|
                    0 <= j < self.keywords@.len() && (#[trigger] self.keywords@[j])@ == k@;
                assert(self@.keywords[w] == k@);
            } else {
                if has_keyword(self@, k@) {
                    let w = choose|j: int|
                        0 <= j < self@.keywords.len() && #[trigger] self@.keywords[j] == k@;
                    assert(self.keywords@[w]@ == k@);
                    assert(false);
                }
            }
        }
        r
    }

    /// Keyword search: with `match_all` every search keyword must be
    /// carried; otherwise one match suffices.
    pub fn matches_keywords(&self, search_keywords: &Vec<String>, match_all: bool) -> (r: bool)
        ensures
            match_all ==> (r == (forall|i: int|
                0 <= i < search_keywords@.len() ==> has_keyword(
                    self@,
                    (#[trigger] search_keywords@[i])@,
                ))),
            !match_all ==> (r == (exists|i: int|
                0 <= i < search_keywords@.len() && has_keyword(
                    self@,
                    (#[trigger] search_keywords@[i])@,
                ))),
    {
        let mut i: usize = 0;
        if match_all {
            while i < search_keywords.len()
                invariant
                    match_all,
                    0 <= i <= search_keywords@.len(),
                    forall|j: int|
                        0 <= j < i ==> has_keyword(self@, (#[trigger] search_keywords@[j])@),
                decreases search_keywords@.len() - i,
            {
                if !self.carries_keyword(&search_keywords[i]) {
                    assert(!has_keyword(self@, (search_keywords@[i as int])@));
                    return false;
                }
                i = i + 1;
            }
            true
        } else {
            while i < search_keywords.len()
                invariant
                    !match_all,
                    0 <= i <= search_keywords@.len(),
                    forall|j: int|
                        0 <= j < i ==> !has_keyword(self@, (#[trigger] search_keywords@[j])@),
                decreases search_keywords@.len() - i,
            {
                if self.carries_keyword(&search_keywords[i]) {
                    assert(has_keyword(self@, (search_keywords@[i as int])@));
                    return true;
                }
                i = i + 1;
            }
            proof {
                if exists|k: int|
                    0 <= k < search_keywords@.len() && has_keyword(
                        self@,
                        (#[trigger] search_keywords@[k])@,
                    ) {
                    let w = choose|k: int|
                        0 <= k < search_keywords@.len() && has_keyword(
                            self@,
                            (#[trigger] search_keywords@[k])@,
                        );
                    assert(!has_keyword(self@, (search_keywords@[w])@));
                }
            }
            false
        }
    }

    /// An independent copy with the same content.
    pub fn duplicate(&self) -> (r: Food)
        ensures
            r@ == self@,
    {
        let mut keywords: Vec<String> = Vec::new();
        let mut i: usize = 0;
        while i < self.keywords.len()
            invariant
                0 <= i <= self.keywords@.len(),
                keywords@.len() == i,
                forall|j: int| 0 <= j < i ==> (#[trigger] keywords@[j])@ == self.keywords@[j]@,
            decreases self.keywords@.len() - i,
        {
            keywords.push(self.keywords[i].clone());
            i = i + 1;
        }
        let mut components: Vec<(String, u32)> = Vec::new();
        let mut i: usize = 0;
        while i < self.components.len()
            invariant
                0 <= i <= self.components@.len(),
                components@.len() == i,
                forall|j: int|
                    0 <= j < i ==> (#[trigger] components@[j]).0@ == self.components@[j].0@
                        && components@[j].1 == self.components@[j].1,
            decreases self.components@.len() - i,
        {
            components.push((self.components[i].0.clone(), self.components[i].1));
            i = i + 1;
        }
        let r = Food {
            id: self.id.clone(),
            name: self.name.clone(),
            keywords,
            calories_per_serving: self.calories_per_serving,
            food_type: self.food_type,
            components,
        };
        proof {
            assert(views_of(r.keywords@) =~= views_of(self.keywords@));
            assert(component_views(r.components@) =~= component_views(self.components@));
        }
        r
    }
}

/// Index of the first food with the given id, or the length when absent.
pub open spec fn food_index(foods: Seq<FoodModel>, id: Seq<char>) -> int
    decreases foods.len(),
{
    if foods.len() == 0 {
        0
    } else if foods[0].id == id {
        0
    } else {
        1 + food_index(foods.drop_first(), id)
    }
}

/// The first food in `foods` with the given id, if any.
pub open spec fn find_food(foods: Seq<FoodModel>, id: Seq<char>) -> Option<FoodModel> {
    let i = food_index(foods, id);
    if i < foods.len() {
        Some(foods[i])
    } else {
        None
    }
}

pub proof fn lemma_food_index(foods: Seq<FoodModel>, id: Seq<char>)
    ensures
        0 <= food_index(foods, id) <= foods.len(),
        food_index(foods, id) < foods.len() ==> foods[food_index(foods, id)].id == id,
        forall|j: int| 0 <= j < food_index(foods, id) ==> foods[j].id != id,
    decreases foods.len(),
{
    if foods.len() > 0 && foods[0].id != id {
        lemma_food_index(foods.drop_first(), id);
        assert forall|j: int| 0 <= j < food_index(foods, id) implies foods[j].id != id by {
            if j > 0 {
                assert(foods.drop_first()[j - 1] == foods[j]);
            }
        }
    }
}

/// A scan that misses before `i` and hits at `i` pins the index.
pub proof fn lemma_food_index_is(foods: Seq<FoodModel>, id: Seq<char>, i: int)
    requires
        0 <= i <= foods.len(),
        forall|j: int| 0 <= j < i ==> (#[trigger] foods[j]).id != id,
        i < foods.len() ==> foods[i].id == id,
    ensures
        food_index(foods, id) == i,
    decreases foods.len(),
{
    if foods.len() > 0 && i > 0 {
        assert(foods[0].id != id);
        assert forall|j: int| 0 <= j < i - 1 implies (#[trigger] foods.drop_first()[j]).id != id by {
            assert(foods.drop_first()[j] == foods[j + 1]);
        }
        if i - 1 < foods.drop_first().len() {
            assert(foods.drop_first()[i - 1] == foods[i]);
        }
        lemma_food_index_is(foods.drop_first(), id, i - 1);
    }
}

} // verus!
