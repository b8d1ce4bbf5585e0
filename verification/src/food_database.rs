//! The food catalog: atomic foods with a calorie rate, and composite foods
//! stored fully flattened to weighted atomic components. Atomic and composite
//! identifiers share one namespace. Flattening happens at construction time,
//! so composite components always reference atomic foods only and no cycle
//! can ever form.

use vstd::prelude::*;
use crate::error::TrackerError;
use crate::num::{clamp64, sat_add, sat_mul};
use crate::util::{first_index, lemma_first_index};

verus! {

/// A food with a directly specified calorie rate and no sub-components.
#[derive(Clone, Debug)]
pub struct BasicFood {
    pub identifier: String,
    pub keywords: Vec<String>,
    pub calories_per_serving: u64,
}

#[verifier::ext_equal]
pub ghost struct BasicFoodV {
    pub identifier: Seq<char>,
    pub keywords: Seq<Seq<char>>,
    pub calories_per_serving: int,
}

pub open spec fn keywords_view(ks: Seq<String>) -> Seq<Seq<char>> {
    ks.map_values(|k: String| k@)
}

impl View for BasicFood {
    type V = BasicFoodV;

    open spec fn view(&self) -> BasicFoodV {
        BasicFoodV {
            identifier: self.identifier@,
            keywords: keywords_view(self.keywords@),
            calories_per_serving: self.calories_per_serving as int,
        }
    }
}

impl BasicFood {
    pub fn get_calories(&self) -> (r: u64)
        ensures
            r as int == self@.calories_per_serving,
    {
        self.calories_per_serving
    }
}

/// A food defined as a weighted combination of atomic foods. The component
/// list is always flat: each element pairs an atomic food with a quantity.
#[derive(Clone, Debug)]
pub struct CompositeFood {
    pub identifier: String,
    pub keywords: Vec<String>,
    pub components: Vec<(BasicFood, u64)>,
}

#[verifier::ext_equal]
pub ghost struct CompositeFoodV {
    pub identifier: Seq<char>,
    pub keywords: Seq<Seq<char>>,
    pub components: Seq<(BasicFoodV, int)>,
}

pub open spec fn components_view(cs: Seq<(BasicFood, u64)>) -> Seq<(BasicFoodV, int)> {
    cs.map_values(|c: (BasicFood, u64)| (c.0@, c.1 as int))
}

impl View for CompositeFood {
    type V = CompositeFoodV;

    open spec fn view(&self) -> CompositeFoodV {
        CompositeFoodV {
            identifier: self.identifier@,
            keywords: keywords_view(self.keywords@),
            components: components_view(self.components@),
        }
    }
}

/// The exact calorie total of a flattened component list:
/// the sum of rate times quantity over its elements.
pub open spec fn spec_components_calories(s: Seq<(BasicFoodV, int)>) -> int
    decreases s.len(),
{
    if s.len() == 0 {
        0
    } else {
        spec_components_calories(s.drop_last()) + s.last().0.calories_per_serving * s.last().1
    }
}

/// Every element of a component list that came from executable data has its
/// quantity and rate inside the u64 range.
pub open spec fn components_in_range(s: Seq<(BasicFoodV, int)>) -> bool {
    forall|i: int|
        0 <= i < s.len() ==> 0 <= (#[trigger] s[i]).1 <= u64::MAX && 0 <= s[i].0.calories_per_serving
            <= u64::MAX
}

pub proof fn lemma_components_calories_nonneg(s: Seq<(BasicFoodV, int)>)
    requires
        components_in_range(s),
    ensures
        spec_components_calories(s) >= 0,
    decreases s.len(),
{
    if s.len() > 0 {
        lemma_components_calories_nonneg(s.drop_last());
        vstd::arithmetic::mul::lemma_mul_nonnegative(
            s.last().0.calories_per_serving,
            s.last().1,
        );
    }
}

impl CompositeFood {
    /// The calorie total of one serving of this composite food, summed over
    /// its flattened components and saturating at the u64 range.
    pub fn get_calories(&self) -> (r: u64)
        ensures
            r as int == clamp64(spec_components_calories(self@.components)),
    {
        let ghost all = self@.components;
        let mut total: u64 = 0;
        let mut i: usize = 0;
        while i < self.components.len()
            invariant
                i <= self.components.len(),
                all == self@.components,
                all.len() == self.components.len(),
                total as int == clamp64(spec_components_calories(all.take(i as int))),
            decreases self.components.len() - i,
        {
            let c = &self.components[i];
            let prod = sat_mul(c.0.calories_per_serving, c.1);
            proof {
                let pre = all.take(i as int);
                let cur = all.take(i as int + 1);
                assert(cur.drop_last() =~= pre);
                assert(cur.last() == all[i as int]);
                assert(all[i as int].0.calories_per_serving
                    == self.components@[i as int].0.calories_per_serving as int);
                assert(all[i as int].1 == self.components@[i as int].1 as int);
                assert forall|j: int| 0 <= j < pre.len() implies 0 <= (#[trigger] pre[j]).1
                    <= u64::MAX && 0 <= pre[j].0.calories_per_serving <= u64::MAX by {
                    assert(pre[j] == all[j]);
                    assert(all[j].1 == self.components@[j].1 as int);
                    assert(all[j].0.calories_per_serving
                        == self.components@[j].0.calories_per_serving as int);
                }
                lemma_components_calories_nonneg(pre);
                vstd::arithmetic::mul::lemma_mul_nonnegative(
                    all[i as int].0.calories_per_serving,
                    all[i as int].1,
                );
                crate::num::lemma_clamp_add(
                    spec_components_calories(pre),
                    all[i as int].0.calories_per_serving * all[i as int].1,
                );
            }
            total = sat_add(total, prod);
            i += 1;
        }
        proof {
            assert(all.take(self.components.len() as int) =~= all);
        }
        total
    }
}

/// A component list scaled by a quantity, as when a composite food is used
/// as a component of a new one: each element keeps its atomic food, and its
/// quantity is multiplied by `q`, saturating at the u64 range.
pub open spec fn scale_components(s: Seq<(BasicFoodV, int)>, q: int) -> Seq<(BasicFoodV, int)> {
    s.map_values(|c: (BasicFoodV, int)| (c.0, clamp64(c.1 * q)))
}

/// What one component reference `(rid, q)` contributes to a new composite
/// food: an atomic food contributes itself with quantity `q`; a composite
/// food contributes its own already-flattened components scaled by `q`;
/// anything else is a missing component.
pub open spec fn spec_expand_ref(db: FoodDatabaseV, rid: Seq<char>, q: int) -> Option<
    Seq<(BasicFoodV, int)>,
> {
    if db.has_basic(rid) {
        Some(seq![(db.basic_at(rid), q)])
    } else if db.has_composite(rid) {
        Some(scale_components(db.composite_at(rid).components, q))
    } else {
        None
    }
}

pub open spec fn refs_view(rs: Seq<(String, u64)>) -> Seq<(Seq<char>, int)> {
    rs.map_values(|r: (String, u64)| (r.0@, r.1 as int))
}

/// The flattened component list of a new composite food built from `refs`,
/// in input order, or the identifier of the first reference that resolves
/// to no food.
pub open spec fn spec_expand_refs(db: FoodDatabaseV, refs: Seq<(Seq<char>, int)>) -> Result<
    Seq<(BasicFoodV, int)>,
    Seq<char>,
>
    decreases refs.len(),
{
    if refs.len() == 0 {
        Ok(Seq::empty())
    } else {
        match spec_expand_refs(db, refs.drop_last()) {
            Err(e) => Err(e),
            Ok(pre) => match spec_expand_ref(db, refs.last().0, refs.last().1) {
                None => Err(refs.last().0),
                Some(c) => Ok(pre + c),
            },
        }
    }
}

/// Once a prefix of the references fails to resolve, the whole expansion
/// fails with that same missing identifier.
pub proof fn lemma_expand_error_persists(db: FoodDatabaseV, refs: Seq<(Seq<char>, int)>, m: int)
    requires
        0 <= m <= refs.len(),
        spec_expand_refs(db, refs.take(m)) is Err,
    ensures
        spec_expand_refs(db, refs) == spec_expand_refs(db, refs.take(m)),
    decreases refs.len(),
{
    if m < refs.len() {
        assert(refs.drop_last().take(m) =~= refs.take(m));
        lemma_expand_error_persists(db, refs.drop_last(), m);
    } else {
        assert(refs.take(m) =~= refs);
    }
}

/// A copy of an atomic food with the same identifier, keywords and rate.
fn copy_basic(f: &BasicFood) -> (r: BasicFood)
    ensures
        r@ == f@,
{
    let keywords = f.keywords.clone();
    proof {
        assert forall|i: int| 0 <= i < keywords@.len() implies keywords@[i]@ == f.keywords@[i]@ by {
            assert(cloned::<String>(f.keywords[i], keywords[i]));
        }
        assert(keywords_view(keywords@) =~= keywords_view(f.keywords@));
    }
    BasicFood {
        identifier: f.identifier.clone(),
        keywords,
        calories_per_serving: f.calories_per_serving,
    }
}

/// ASCII-lowercase folding of one byte; bytes outside `A`..=`Z` are kept.
pub open spec fn lower_byte(b: u8) -> u8 {
    if 65 <= b <= 90 {
        (b + 32) as u8
    } else {
        b
    }
}

/// Case-insensitive prefix match on UTF-8 bytes, folding ASCII letters.
pub open spec fn prefix_ci(p: Seq<u8>, s: Seq<u8>) -> bool {
    p.len() <= s.len() && forall|i: int|
        0 <= i < p.len() ==> lower_byte(#[trigger] p[i]) == lower_byte(s[i])
}

/// The UTF-8 bytes of a character sequence.
pub open spec fn str_bytes(s: Seq<char>) -> Seq<u8> {
    vstd::utf8::encode_utf8(s)
}

pub open spec fn keyword_match(kws: Seq<Seq<char>>, p: Seq<u8>) -> bool {
    exists|k: int| 0 <= k < kws.len() && prefix_ci(p, str_bytes(#[trigger] kws[k]))
}

/// Whether a food with this identifier and these keywords answers a search
/// for `p`: the query is a case-insensitive prefix of the identifier or of
/// some keyword.
pub open spec fn food_matches(id: Seq<char>, kws: Seq<Seq<char>>, p: Seq<u8>) -> bool {
    prefix_ci(p, str_bytes(id)) || keyword_match(kws, p)
}

/// The search answers drawn from the atomic foods, in catalog order:
/// each matching food contributes its identifier and calorie rate.
pub open spec fn search_basic_results(s: Seq<BasicFoodV>, p: Seq<u8>) -> Seq<(Seq<char>, int)>
    decreases s.len(),
{
    if s.len() == 0 {
        Seq::empty()
    } else {
        search_basic_results(s.drop_last(), p) + if food_matches(
            s.last().identifier,
            s.last().keywords,
            p,
        ) {
            seq![(s.last().identifier, s.last().calories_per_serving)]
        } else {
            Seq::empty()
        }
    }
}

/// The search answers drawn from the composite foods, in catalog order:
/// each matching food contributes its identifier and its summed calorie
/// total, clamped into the u64 range.
pub open spec fn search_composite_results(s: Seq<CompositeFoodV>, p: Seq<u8>) -> Seq<
    (Seq<char>, int),
>
    decreases s.len(),
{
    if s.len() == 0 {
        Seq::empty()
    } else {
        search_composite_results(s.drop_last(), p) + if food_matches(
            s.last().identifier,
            s.last().keywords,
            p,
        ) {
            seq![(s.last().identifier, clamp64(spec_components_calories(s.last().components)))]
        } else {
            Seq::empty()
        }
    }
}

/// All search answers: the atomic matches followed by the composite matches.
pub open spec fn spec_search_results(db: FoodDatabaseV, p: Seq<u8>) -> Seq<(Seq<char>, int)> {
    search_basic_results(db.basic, p) + search_composite_results(db.composite, p)
}

fn lower_u8(b: u8) -> (r: u8)
    ensures
        r == lower_byte(b),
{
    if 65 <= b && b <= 90 {
        b + 32
    } else {
        b
    }
}

fn bytes_prefix_ci(p: &[u8], s: &[u8]) -> (r: bool)
    ensures
        r == prefix_ci(p@, s@),
{
    if p.len() > s.len() {
        return false;
    }
    let mut i: usize = 0;
    while i < p.len()
        invariant
            p@.len() <= s@.len(),
            i <= p@.len(),
            forall|j: int| 0 <= j < i ==> lower_byte(#[trigger] p@[j]) == lower_byte(s@[j]),
        decreases p@.len() - i,
    {
        if lower_u8(p[i]) != lower_u8(s[i]) {
            return false;
        }
        i += 1;
    }
    true
}

fn str_prefix_ci(p: &str, s: &str) -> (r: bool)
    ensures
        r == prefix_ci(str_bytes(p@), str_bytes(s@)),
{
    bytes_prefix_ci(p.as_bytes(), s.as_bytes())
}

fn matches_food(p: &str, identifier: &String, keywords: &Vec<String>) -> (r: bool)
    ensures
        r == food_matches(identifier@, keywords_view(keywords@), str_bytes(p@)),
{
    if str_prefix_ci(p, identifier.as_str()) {
        return true;
    }
    let ghost kws = keywords_view(keywords@);
    let mut j: usize = 0;
    while j < keywords.len()
        invariant
            kws == keywords_view(keywords@),
            kws.len() == keywords.len(),
            j <= keywords.len(),
            forall|k: int| 0 <= k < j ==> !prefix_ci(str_bytes(p@), str_bytes(#[trigger] kws[k])),
        decreases keywords.len() - j,
    {
        if str_prefix_ci(p, keywords[j].as_str()) {
            proof {
                assert(kws[j as int] == keywords@[j as int]@);
                assert(prefix_ci(str_bytes(p@), str_bytes(kws[j as int])));
            }
            return true;
        }
        proof {
            assert(kws[j as int] == keywords@[j as int]@);
        }
        j += 1;
    }
    false
}

proof fn lemma_components_view_push(cs: Seq<(BasicFood, u64)>, x: (BasicFood, u64))
    ensures
        components_view(cs.push(x)) == components_view(cs).push((x.0@, x.1 as int)),
{
    assert(components_view(cs.push(x)) =~= components_view(cs).push((x.0@, x.1 as int)));
}

/// The catalog itself: atomic foods and flattened composite foods.
#[derive(Debug)]
pub struct FoodDatabase {
    pub basic_foods: Vec<BasicFood>,
    pub composite_foods: Vec<CompositeFood>,
}

#[verifier::ext_equal]
pub ghost struct FoodDatabaseV {
    pub basic: Seq<BasicFoodV>,
    pub composite: Seq<CompositeFoodV>,
}

impl View for FoodDatabase {
    type V = FoodDatabaseV;

    open spec fn view(&self) -> FoodDatabaseV {
        FoodDatabaseV {
            basic: self.basic_foods@.map_values(|f: BasicFood| f@),
            composite: self.composite_foods@.map_values(|f: CompositeFood| f@),
        }
    }
}

pub open spec fn basic_ids(s: Seq<BasicFoodV>) -> Seq<Seq<char>> {
    s.map_values(|f: BasicFoodV| f.identifier)
}

pub open spec fn composite_ids(s: Seq<CompositeFoodV>) -> Seq<Seq<char>> {
    s.map_values(|f: CompositeFoodV| f.identifier)
}

impl FoodDatabaseV {
    pub open spec fn has_basic(self, id: Seq<char>) -> bool {
        first_index(basic_ids(self.basic), id) != -1
    }

    /// The first atomic food with this identifier; meaningful only when
    /// `has_basic` holds.
    pub open spec fn basic_at(self, id: Seq<char>) -> BasicFoodV {
        self.basic[first_index(basic_ids(self.basic), id)]
    }

    pub open spec fn has_composite(self, id: Seq<char>) -> bool {
        first_index(composite_ids(self.composite), id) != -1
    }

    pub open spec fn composite_at(self, id: Seq<char>) -> CompositeFoodV {
        self.composite[first_index(composite_ids(self.composite), id)]
    }

    /// Whether the identifier is taken anywhere in the shared namespace.
    pub open spec fn has_id(self, id: Seq<char>) -> bool {
        self.has_basic(id) || self.has_composite(id)
    }

    /// Catalog invariant: identifiers are unique across the whole namespace,
    /// and every stored component quantity is positive and in range.
    pub open spec fn wf(self) -> bool {
        &&& forall|i: int, j: int|
            0 <= i < j < self.basic.len() ==> (#[trigger] self.basic[i]).identifier != (
            #[trigger] self.basic[j]).identifier
        &&& forall|i: int, j: int|
            0 <= i < j < self.composite.len() ==> (#[trigger] self.composite[i]).identifier != (
            #[trigger] self.composite[j]).identifier
        &&& forall|i: int, j: int|
            0 <= i < self.basic.len() && 0 <= j < self.composite.len() ==> (
            #[trigger] self.basic[i]).identifier != (#[trigger] self.composite[j]).identifier
        &&& forall|k: int|
            0 <= k < self.composite.len() ==> components_in_range(
                (#[trigger] self.composite[k]).components,
            ) && forall|i: int|
                0 <= i < self.composite[k].components.len() ==> (#[trigger] self.composite[k].components[i]).1 >= 1
    }
}

impl FoodDatabase {
    pub fn new() -> (r: Self)
        ensures
            r@.basic.len() == 0,
            r@.composite.len() == 0,
            r@.wf(),
    {
        FoodDatabase { basic_foods: Vec::new(), composite_foods: Vec::new() }
    }

    /// The index of the first atomic food with this identifier.
    fn find_basic(&self, identifier: &str) -> (r: Option<usize>)
        ensures
            r matches Some(i) ==> i < self.basic_foods.len() && first_index(
                basic_ids(self@.basic),
                identifier@,
            ) == i as int,
            r is None ==> !self@.has_basic(identifier@),
    {
        let key: String = identifier.to_owned();
        let ghost ids = basic_ids(self@.basic);
        let mut i: usize = 0;
        while i < self.basic_foods.len()
            invariant
                i <= self.basic_foods.len(),
                ids == basic_ids(self@.basic),
                ids.len() == self.basic_foods.len(),
                key@ == identifier@,
                forall|j: int| 0 <= j < i ==> ids[j] != identifier@,
            decreases self.basic_foods.len() - i,
        {
            if self.basic_foods[i].identifier == key {
                proof {
                    assert(ids[i as int] == identifier@);
                    lemma_first_index(ids, identifier@);
                }
                return Some(i);
            }
            proof {
                assert(ids[i as int] == self@.basic[i as int].identifier);
            }
            i += 1;
        }
        proof {
            lemma_first_index(ids, identifier@);
        }
        None
    }

    /// The index of the first composite food with this identifier.
    fn find_composite(&self, identifier: &str) -> (r: Option<usize>)
        ensures
            r matches Some(i) ==> i < self.composite_foods.len() && first_index(
                composite_ids(self@.composite),
                identifier@,
            ) == i as int,
            r is None ==> !self@.has_composite(identifier@),
    {
        let key: String = identifier.to_owned();
        let ghost ids = composite_ids(self@.composite);
        let mut i: usize = 0;
        while i < self.composite_foods.len()
            invariant
                i <= self.composite_foods.len(),
                ids == composite_ids(self@.composite),
                ids.len() == self.composite_foods.len(),
                key@ == identifier@,
                forall|j: int| 0 <= j < i ==> ids[j] != identifier@,
            decreases self.composite_foods.len() - i,
        {
            if self.composite_foods[i].identifier == key {
                proof {
                    assert(ids[i as int] == identifier@);
                    lemma_first_index(ids, identifier@);
                }
                return Some(i);
            }
            proof {
                assert(ids[i as int] == self@.composite[i as int].identifier);
            }
            i += 1;
        }
        proof {
            lemma_first_index(ids, identifier@);
        }
        None
    }

    /// The atomic food with this identifier, if any.
    pub fn get_basic_food(&self, identifier: &str) -> (r: Option<&BasicFood>)
        ensures
            r matches Some(f) ==> self@.has_basic(identifier@) && f@ == self@.basic_at(
                identifier@,
            ),
            r is None ==> !self@.has_basic(identifier@),
    {
        match self.find_basic(identifier) {
            Some(i) => Some(&self.basic_foods[i]),
            None => None,
        }
    }

    /// The composite food with this identifier, if any.
    pub fn get_composite_food(&self, identifier: &str) -> (r: Option<&CompositeFood>)
        ensures
            r matches Some(f) ==> self@.has_composite(identifier@) && f@ == self@.composite_at(
                identifier@,
            ),
            r is None ==> !self@.has_composite(identifier@),
    {
        match self.find_composite(identifier) {
            Some(i) => Some(&self.composite_foods[i]),
            None => None,
        }
    }

    /// Add an atomic food. Fails with `DuplicateIdentifier` when the
    /// identifier is already used by an atomic or a composite food.
    pub fn add_basic_food(
        &mut self,
        identifier: &str,
        keywords: Vec<String>,
        calories_per_serving: u64,
    ) -> (r: Result<(), TrackerError>)
        requires
            old(self)@.wf(),
        ensures
            final(self)@.wf(),
            old(self)@.has_id(identifier@) ==> (r matches Err(e) && e is DuplicateIdentifier
                && final(self)@ == old(self)@),
            !old(self)@.has_id(identifier@) ==> r is Ok && final(self)@ == (FoodDatabaseV {
                basic: old(self)@.basic.push(
                    BasicFoodV {
                        identifier: identifier@,
                        keywords: keywords_view(keywords@),
                        calories_per_serving: calories_per_serving as int,
                    },
                ),
                composite: old(self)@.composite,
            }),
    {
        if self.find_basic(identifier).is_some() || self.find_composite(identifier).is_some() {
            return Err(TrackerError::DuplicateIdentifier);
        }
        let ghost oldv = self@;
        let food = BasicFood {
            identifier: identifier.to_owned(),
            keywords,
            calories_per_serving,
        };
        let ghost fv = food@;
        self.basic_foods.push(food);
        proof {
            assert(self@.basic =~= oldv.basic.push(fv));
            assert(self@.composite =~= oldv.composite);
            assert(self@ =~= (FoodDatabaseV { basic: oldv.basic.push(fv), composite: oldv.composite }));
            lemma_first_index(basic_ids(oldv.basic), identifier@);
            lemma_first_index(composite_ids(oldv.composite), identifier@);
            assert forall|i: int, j: int|
                0 <= i < j < self@.basic.len() implies (#[trigger] self@.basic[i]).identifier != (
            #[trigger] self@.basic[j]).identifier by {
                if j < oldv.basic.len() {
                    assert(self@.basic[i] == oldv.basic[i]);
                    assert(self@.basic[j] == oldv.basic[j]);
                } else {
                    assert(self@.basic[j] == fv);
                    assert(self@.basic[i] == oldv.basic[i]);
                    assert(basic_ids(oldv.basic)[i] == oldv.basic[i].identifier);
                }
            }
            assert forall|i: int, j: int|
                0 <= i < self@.basic.len() && 0 <= j < self@.composite.len() implies (
            #[trigger] self@.basic[i]).identifier != (#[trigger] self@.composite[j]).identifier by {
                if i < oldv.basic.len() {
                    assert(self@.basic[i] == oldv.basic[i]);
                } else {
                    assert(self@.basic[i] == fv);
                    assert(composite_ids(oldv.composite)[j] == oldv.composite[j].identifier);
                }
            }
        }
        Ok(())
    }

    /// Add a composite food built from component references, each naming an
    /// existing atomic or composite food with a positive quantity. The new
    /// food is stored flattened: composite references contribute their own
    /// flattened components with scaled quantities. Fails with
    /// `DuplicateIdentifier` when the identifier collides, and with
    /// `ComponentNotFound` when a reference resolves to no food.
    pub fn add_composite_food(
        &mut self,
        identifier: &str,
        keywords: Vec<String>,
        component_ids: Vec<(String, u64)>,
    ) -> (r: Result<(), TrackerError>)
        requires
            old(self)@.wf(),
            forall|i: int|
                0 <= i < component_ids@.len() ==> (#[trigger] component_ids@[i]).1 >= 1,
        ensures
            final(self)@.wf(),
            old(self)@.has_id(identifier@) ==> (r matches Err(e) && e is DuplicateIdentifier
                && final(self)@ == old(self)@),
            !old(self)@.has_id(identifier@) && spec_expand_refs(
                old(self)@,
                refs_view(component_ids@),
            ) is Err ==> (r matches Err(e) && (e matches TrackerError::ComponentNotFound(s)
                && s@ == spec_expand_refs(old(self)@, refs_view(component_ids@))->Err_0)
                && final(self)@ == old(self)@),
            !old(self)@.has_id(identifier@) && spec_expand_refs(
                old(self)@,
                refs_view(component_ids@),
            ) is Ok ==> (r is Ok && final(self)@ == (FoodDatabaseV {
                basic: old(self)@.basic,
                composite: old(self)@.composite.push(
                    CompositeFoodV {
                        identifier: identifier@,
                        keywords: keywords_view(keywords@),
                        components: spec_expand_refs(old(self)@, refs_view(component_ids@))->Ok_0,
                    },
                ),
            })),
    {
        if self.find_basic(identifier).is_some() || self.find_composite(identifier).is_some() {
            return Err(TrackerError::DuplicateIdentifier);
        }
        let ghost refs = refs_view(component_ids@);
        let mut components: Vec<(BasicFood, u64)> = Vec::new();
        proof {
            assert(refs.take(0) =~= Seq::<(Seq<char>, int)>::empty());
            assert(components_view(components@) =~= Seq::<(BasicFoodV, int)>::empty());
        }
        let mut i: usize = 0;
        while i < component_ids.len()
            invariant
                old(self)@.wf(),
                self@ == old(self)@,
                !old(self)@.has_id(identifier@),
                i <= component_ids.len(),
                refs == refs_view(component_ids@),
                refs.len() == component_ids.len(),
                forall|k: int|
                    0 <= k < component_ids@.len() ==> (#[trigger] component_ids@[k]).1 >= 1,
                spec_expand_refs(self@, refs.take(i as int)) == Ok::<
                    Seq<(BasicFoodV, int)>,
                    Seq<char>,
                >(components_view(components@)),
                forall|k: int| 0 <= k < components@.len() ==> (#[trigger] components@[k]).1 >= 1,
            decreases component_ids.len() - i,
        {
            let ghost pre = components_view(components@);
            let rid: &String = &component_ids[i].0;
            let q: u64 = component_ids[i].1;
            proof {
                assert(refs[i as int] == (rid@, q as int));
            }
            match self.find_basic(rid.as_str()) {
                Some(bi) => {
                    let food = copy_basic(&self.basic_foods[bi]);
                    proof {
                        assert(food@ == self@.basic_at(rid@));
                    }
                    let ghost oldcs = components@;
                    components.push((food, q));
                    proof {
                        lemma_components_view_push(oldcs, (food, q));
                        assert(components_view(components@) =~= pre + seq![
                            (self@.basic_at(rid@), q as int),
                        ]);
                    }
                },
                None => {
                    match self.find_composite(rid.as_str()) {
                        Some(ci) => {
                            let ghost src = self@.composite[ci as int].components;
                            proof {
                                assert(self@.composite_at(rid@) == self@.composite[ci as int]);
                            }
                            let n = self.composite_foods[ci].components.len();
                            let mut k: usize = 0;
                            while k < n
                                invariant
                                    old(self)@.wf(),
                                    self@ == old(self)@,
                                    ci < self.composite_foods.len(),
                                    n == self.composite_foods[ci as int].components.len(),
                                    src == self@.composite[ci as int].components,
                                    src.len() == n,
                                    components_in_range(src),
                                    forall|j: int| 0 <= j < src.len() ==> (#[trigger] src[j]).1 >= 1,
                                    q >= 1,
                                    k <= n,
                                    components_view(components@) == pre + scale_components(
                                        src.take(k as int),
                                        q as int,
                                    ),
                                    forall|j: int|
                                        0 <= j < components@.len() ==> (
                                        #[trigger] components@[j]).1 >= 1,
                                decreases n - k,
                            {
                                let pair: &(BasicFood, u64) = &self.composite_foods[ci].components[k];
                                let adj = sat_mul(pair.1, q);
                                proof {
                                    assert(src[k as int]
                                        == (pair.0@, pair.1 as int));
                                    assert(adj as int == clamp64(src[k as int].1 * q));
                                    assert(pair.1 as int * q as int >= 1) by (nonlinear_arith)
                                        requires pair.1 >= 1 && q >= 1;
                                }
                                let food = copy_basic(&pair.0);
                                let ghost oldcs = components@;
                                components.push((food, adj));
                                proof {
                                    let y = (src[k as int].0, clamp64(src[k as int].1 * (
                                    q as int)));
                                    lemma_components_view_push(oldcs, (food, adj));
                                    assert(components_view(components@) == components_view(
                                        oldcs,
                                    ).push(y));
                                    assert(scale_components(src.take(k as int + 1), q as int)
                                        =~= scale_components(src.take(k as int), q as int).push(
                                        y,
                                    ));
                                    assert(components_view(components@) =~= pre
                                        + scale_components(src.take(k as int + 1), q as int));
                                }
                                k += 1;
                            }
                            proof {
                                assert(src.take(n as int) =~= src);
                            }
                        },
                        None => {
                            proof {
                                assert(spec_expand_ref(self@, rid@, q as int) is None);
                                assert(refs.take(i as int + 1).drop_last() =~= refs.take(i as int));
                                assert(refs.take(i as int + 1).last() == refs[i as int]);
                                assert(spec_expand_refs(self@, refs.take(i as int + 1)) == Err::<
                                    Seq<(BasicFoodV, int)>,
                                    Seq<char>,
                                >(rid@));
                                lemma_expand_error_persists(self@, refs, i as int + 1);
                            }
                            return Err(TrackerError::ComponentNotFound(rid.clone()));
                        },
                    }
                },
            }
            proof {
                assert(refs.take(i as int + 1).drop_last() =~= refs.take(i as int));
                assert(refs.take(i as int + 1).last() == refs[i as int]);
            }
            i += 1;
        }
        proof {
            assert(refs.take(component_ids.len() as int) =~= refs);
        }
        let ghost oldv = self@;
        let ghost comps = components_view(components@);
        let food = CompositeFood {
            identifier: identifier.to_owned(),
            keywords,
            components,
        };
        let ghost fv = food@;
        self.composite_foods.push(food);
        proof {
            assert(fv.components == comps);
            assert(self@.composite =~= oldv.composite.push(fv));
            assert(self@.basic =~= oldv.basic);
            assert(self@ =~= (FoodDatabaseV {
                basic: oldv.basic,
                composite: oldv.composite.push(fv),
            }));
            lemma_first_index(basic_ids(oldv.basic), identifier@);
            lemma_first_index(composite_ids(oldv.composite), identifier@);
            let newc = self@.composite;
            assert forall|a: int, b: int|
                0 <= a < b < newc.len() implies (#[trigger] newc[a]).identifier != (
            #[trigger] newc[b]).identifier by {
                if b < oldv.composite.len() {
                    assert(newc[a] == oldv.composite[a]);
                    assert(newc[b] == oldv.composite[b]);
                } else {
                    assert(newc[b] == fv);
                    assert(newc[a] == oldv.composite[a]);
                    assert(composite_ids(oldv.composite)[a] == oldv.composite[a].identifier);
                }
            }
            assert forall|a: int, b: int|
                0 <= a < self@.basic.len() && 0 <= b < newc.len() implies (
            #[trigger] self@.basic[a]).identifier != (#[trigger] newc[b]).identifier by {
                if b < oldv.composite.len() {
                    assert(newc[b] == oldv.composite[b]);
                } else {
                    assert(newc[b] == fv);
                    assert(basic_ids(oldv.basic)[a] == oldv.basic[a].identifier);
                }
            }
            assert forall|b: int|
                0 <= b < newc.len() implies components_in_range((#[trigger] newc[b]).components)
                && forall|j: int|
                    0 <= j < newc[b].components.len() ==> (#[trigger] newc[b].components[j]).1
                        >= 1 by {
                if b < oldv.composite.len() {
                    assert(newc[b] == oldv.composite[b]);
                } else {
                    assert(newc[b] == fv);
                    assert forall|j: int|
                        0 <= j < fv.components.len() implies 0 <= (
                    #[trigger] fv.components[j]).1 <= u64::MAX && 0
                        <= fv.components[j].0.calories_per_serving <= u64::MAX
                        && fv.components[j].1 >= 1 by {
                        assert(fv.components[j] == (self.composite_foods@.last().components@[j].0@,
                            self.composite_foods@.last().components@[j].1 as int));
                    }
                }
            }
        }
        Ok(())
    }

    /// Rebuild the catalog from persisted records: atomic-food records
    /// first, then composite-food records in file order, each re-flattened
    /// exactly as `add_composite_food` would flatten it, so later records
    /// may reference earlier ones. The first collision or missing component
    /// stops the load with the corresponding error, keeping what was loaded
    /// up to that point.
    pub fn load(
        &mut self,
        basic_records: Vec<(String, Vec<String>, u64)>,
        composite_records: Vec<(String, Vec<String>, Vec<(String, u64)>)>,
    ) -> (r: Result<(), TrackerError>)
        requires
            old(self)@.wf(),
            forall|i: int|
                0 <= i < composite_records@.len() ==> forall|j: int|
                    0 <= j < (#[trigger] composite_records@[i]).2@.len() ==> (
                    #[trigger] composite_records@[i].2@[j]).1 >= 1,
        ensures
            final(self)@.wf(),
            ({
                let res = spec_load(
                    old(self)@,
                    basic_recs_view(basic_records@),
                    comp_recs_view(composite_records@),
                );
                &&& (res matches Ok(db) ==> r is Ok && final(self)@ == db)
                &&& (res matches Err(p) ==> final(self)@ == p.1 && (match p.0 {
                    LoadFailure::Duplicate => r matches Err(e) && e is DuplicateIdentifier,
                    LoadFailure::Missing(mid) => r matches Err(e) && (e
                        matches TrackerError::ComponentNotFound(id) && id@ == mid),
                }))
            }),
    {
        let ghost db0 = self@;
        let ghost brecs0 = basic_recs_view(basic_records@);
        let ghost crecs0 = comp_recs_view(composite_records@);
        let mut basics = basic_records;
        while basics.len() > 0
            invariant
                self@.wf(),
                db0 == old(self)@,
                brecs0 == basic_recs_view(basic_records@),
                crecs0 == comp_recs_view(composite_records@),
                spec_load_basics(db0, brecs0) == spec_load_basics(
                    self@,
                    basic_recs_view(basics@),
                ),
            decreases basics.len(),
        {
            let ghost pre_recs = basic_recs_view(basics@);
            let ghost prev = self@;
            let rec = basics.remove(0);
            proof {
                assert(basic_recs_view(basics@) =~= pre_recs.drop_first());
                assert(pre_recs.first() == (rec.0@, keywords_view(rec.1@), rec.2 as int));
            }
            match self.add_basic_food(rec.0.as_str(), rec.1, rec.2) {
                Ok(()) => {
                    proof {
                        assert(!prev.has_id(rec.0@));
                        assert(self@ =~= (FoodDatabaseV {
                            basic: prev.basic.push(
                                BasicFoodV {
                                    identifier: pre_recs.first().0,
                                    keywords: pre_recs.first().1,
                                    calories_per_serving: pre_recs.first().2,
                                },
                            ),
                            composite: prev.composite,
                        }));
                    }
                },
                Err(e) => {
                    proof {
                        assert(prev.has_id(rec.0@));
                        assert(spec_load_basics(prev, pre_recs) == Err::<
                            FoodDatabaseV,
                            (LoadFailure, FoodDatabaseV),
                        >((LoadFailure::Duplicate, prev)));
                        assert(spec_load(db0, brecs0, crecs0) == Err::<
                            FoodDatabaseV,
                            (LoadFailure, FoodDatabaseV),
                        >((LoadFailure::Duplicate, prev)));
                        assert(self@ == prev);
                    }
                    return Err(e);
                },
            }
        }
        proof {
            assert(basic_recs_view(basics@) =~= Seq::<(Seq<char>, Seq<Seq<char>>, int)>::empty());
            assert(spec_load_basics(db0, brecs0) == Ok::<
                FoodDatabaseV,
                (LoadFailure, FoodDatabaseV),
            >(self@));
        }
        let mut comps = composite_records;
        while comps.len() > 0
            invariant
                self@.wf(),
                db0 == old(self)@,
                brecs0 == basic_recs_view(basic_records@),
                crecs0 == comp_recs_view(composite_records@),
                spec_load_basics(db0, brecs0) is Ok,
                spec_load(db0, brecs0, crecs0) == spec_load_composites(
                    self@,
                    comp_recs_view(comps@),
                ),
                forall|i: int|
                    0 <= i < comps@.len() ==> forall|j: int|
                        0 <= j < (#[trigger] comps@[i]).2@.len() ==> (
                        #[trigger] comps@[i].2@[j]).1 >= 1,
            decreases comps.len(),
        {
            let ghost pre_recs = comp_recs_view(comps@);
            let ghost prev = self@;
            let ghost oldcomps = comps@;
            let rec = comps.remove(0);
            proof {
                assert(comp_recs_view(comps@) =~= pre_recs.drop_first());
                assert(pre_recs.first() == (rec.0@, keywords_view(rec.1@), refs_view(rec.2@)));
                assert(oldcomps[0].2@ == rec.2@);
                assert forall|j: int| 0 <= j < rec.2@.len() implies (#[trigger] rec.2@[j]).1
                    >= 1 by {
                    assert(oldcomps[0].2@[j].1 >= 1);
                }
                assert forall|i: int|
                    0 <= i < comps@.len() implies forall|j: int|
                        0 <= j < (#[trigger] comps@[i]).2@.len() ==> (#[trigger] comps@[i].2@[j]).1
                            >= 1 by {
                    assert(comps@[i] == oldcomps[i + 1]);
                }
            }
            match self.add_composite_food(rec.0.as_str(), rec.1, rec.2) {
                Ok(()) => {
                    proof {
                        assert(!prev.has_id(rec.0@));
                        assert(spec_expand_refs(prev, pre_recs.first().2) is Ok);
                        assert(self@ =~= (FoodDatabaseV {
                            basic: prev.basic,
                            composite: prev.composite.push(
                                CompositeFoodV {
                                    identifier: pre_recs.first().0,
                                    keywords: pre_recs.first().1,
                                    components: spec_expand_refs(prev, pre_recs.first().2)->Ok_0,
                                },
                            ),
                        }));
                    }
                },
                Err(e) => {
                    proof {
                        if prev.has_id(rec.0@) {
                            assert(spec_load_composites(prev, pre_recs) == Err::<
                                FoodDatabaseV,
                                (LoadFailure, FoodDatabaseV),
                            >((LoadFailure::Duplicate, prev)));
                        } else {
                            assert(spec_expand_refs(prev, pre_recs.first().2) is Err);
                            let mid = spec_expand_refs(prev, pre_recs.first().2)->Err_0;
                            assert(spec_load_composites(prev, pre_recs) == Err::<
                                FoodDatabaseV,
                                (LoadFailure, FoodDatabaseV),
                            >((LoadFailure::Missing(mid), prev)));
                        }
                        assert(spec_load(db0, brecs0, crecs0) == spec_load_composites(
                            prev,
                            pre_recs,
                        ));
                        assert(self@ == prev);
                    }
                    return Err(e);
                },
            }
        }
        proof {
            assert(comp_recs_view(comps@) =~= Seq::<
                (Seq<char>, Seq<Seq<char>>, Seq<(Seq<char>, int)>),
            >::empty());
        }
        Ok(())
    }

    /// All foods, atomic then composite, whose identifier or some keyword
    /// starts with the query (case-insensitively on ASCII letters), each
    /// with its calorie total per serving.
    pub fn search_foods(&self, prefix: &str) -> (r: Vec<(String, u64)>)
        ensures
            r@.len() == spec_search_results(self@, str_bytes(prefix@)).len(),
            forall|i: int|
                0 <= i < r@.len() ==> (#[trigger] r@[i]).0@ == spec_search_results(
                    self@,
                    str_bytes(prefix@),
                )[i].0 && r@[i].1 as int == spec_search_results(self@, str_bytes(prefix@))[i].1,
    {
        let ghost p = str_bytes(prefix@);
        let ghost bs = self@.basic;
        let ghost cs = self@.composite;
        let mut results: Vec<(String, u64)> = Vec::new();
        let mut i: usize = 0;
        while i < self.basic_foods.len()
            invariant
                bs == self@.basic,
                cs == self@.composite,
                bs.len() == self.basic_foods.len(),
                p == str_bytes(prefix@),
                i <= self.basic_foods.len(),
                results@.len() == search_basic_results(bs.take(i as int), p).len(),
                forall|j: int|
                    0 <= j < results@.len() ==> (#[trigger] results@[j]).0@
                        == search_basic_results(bs.take(i as int), p)[j].0 && results@[j].1 as int
                        == search_basic_results(bs.take(i as int), p)[j].1,
            decreases self.basic_foods.len() - i,
        {
            let food = &self.basic_foods[i];
            let ghost pre = search_basic_results(bs.take(i as int), p);
            let m = matches_food(prefix, &food.identifier, &food.keywords);
            if m {
                results.push((food.identifier.clone(), food.calories_per_serving));
            }
            proof {
                assert(bs.take(i as int + 1).drop_last() =~= bs.take(i as int));
                assert(bs.take(i as int + 1).last() == bs[i as int]);
                assert(bs[i as int] == food@);
                if m {
                    assert(search_basic_results(bs.take(i as int + 1), p) =~= pre + seq![
                        (food@.identifier, food@.calories_per_serving),
                    ]);
                } else {
                    assert(search_basic_results(bs.take(i as int + 1), p) =~= pre);
                }
            }
            i += 1;
        }
        proof {
            assert(bs.take(self.basic_foods.len() as int) =~= bs);
        }
        let ghost base = search_basic_results(bs, p);
        let mut i: usize = 0;
        while i < self.composite_foods.len()
            invariant
                bs == self@.basic,
                cs == self@.composite,
                cs.len() == self.composite_foods.len(),
                p == str_bytes(prefix@),
                base == search_basic_results(bs, p),
                i <= self.composite_foods.len(),
                results@.len() == (base + search_composite_results(cs.take(i as int), p)).len(),
                forall|j: int|
                    0 <= j < results@.len() ==> (#[trigger] results@[j]).0@ == (base
                        + search_composite_results(cs.take(i as int), p))[j].0 && results@[j].1
                        as int == (base + search_composite_results(cs.take(i as int), p))[j].1,
            decreases self.composite_foods.len() - i,
        {
            let food = &self.composite_foods[i];
            let ghost pre = search_composite_results(cs.take(i as int), p);
            let m = matches_food(prefix, &food.identifier, &food.keywords);
            if m {
                let total = food.get_calories();
                results.push((food.identifier.clone(), total));
            }
            proof {
                assert(cs.take(i as int + 1).drop_last() =~= cs.take(i as int));
                assert(cs.take(i as int + 1).last() == cs[i as int]);
                assert(cs[i as int] == food@);
                if m {
                    assert(search_composite_results(cs.take(i as int + 1), p) =~= pre + seq![
                        (
                            food@.identifier,
                            clamp64(spec_components_calories(food@.components)),
                        ),
                    ]);
                    assert(base + search_composite_results(cs.take(i as int + 1), p) =~= (base
                        + pre).push(
                        (
                            food@.identifier,
                            clamp64(spec_components_calories(food@.components)),
                        ),
                    ));
                } else {
                    assert(search_composite_results(cs.take(i as int + 1), p) =~= pre);
                }
            }
            i += 1;
        }
        proof {
            assert(cs.take(self.composite_foods.len() as int) =~= cs);
        }
        results
    }

    /// The calorie total per serving of the food with this identifier:
    /// the stored rate of an atomic food, or the recomputed component sum of
    /// a composite food. Unknown identifiers yield an absent result, not an
    /// error.
    pub fn get_calories(&self, identifier: &str) -> (r: Option<u64>)
        ensures
            self@.has_basic(identifier@) ==> (r matches Some(c) && c as int == self@.basic_at(
                identifier@,
            ).calories_per_serving),
            !self@.has_basic(identifier@) && self@.has_composite(identifier@) ==> (r matches Some(c)
                && c as int == clamp64(
                spec_components_calories(self@.composite_at(identifier@).components),
            )),
            !self@.has_id(identifier@) ==> r is None,
    {
        match self.find_basic(identifier) {
            Some(i) => Some(self.basic_foods[i].get_calories()),
            None => {
                match self.find_composite(identifier) {
                    Some(i) => Some(self.composite_foods[i].get_calories()),
                    None => None,
                }
            },
        }
    }
}

/// How a catalog load can fail: a record's identifier collides with an
/// existing food, or a component reference resolves to no food.
#[verifier::ext_equal]
pub ghost enum LoadFailure {
    Duplicate,
    Missing(Seq<char>),
}

pub open spec fn basic_recs_view(rs: Seq<(String, Vec<String>, u64)>) -> Seq<
    (Seq<char>, Seq<Seq<char>>, int),
> {
    rs.map_values(|r: (String, Vec<String>, u64)| (r.0@, keywords_view(r.1@), r.2 as int))
}

pub open spec fn comp_recs_view(rs: Seq<(String, Vec<String>, Vec<(String, u64)>)>) -> Seq<
    (Seq<char>, Seq<Seq<char>>, Seq<(Seq<char>, int)>),
> {
    rs.map_values(
        |r: (String, Vec<String>, Vec<(String, u64)>)| (r.0@, keywords_view(r.1@), refs_view(r.2@)),
    )
}

/// Loading atomic-food records, in file order: each record inserts as
/// `add_basic_food` would; the first collision stops the load, reporting
/// the catalog state reached so far.
pub open spec fn spec_load_basics(
    db: FoodDatabaseV,
    recs: Seq<(Seq<char>, Seq<Seq<char>>, int)>,
) -> Result<FoodDatabaseV, (LoadFailure, FoodDatabaseV)>
    decreases recs.len(),
{
    if recs.len() == 0 {
        Ok(db)
    } else {
        let rec = recs.first();
        if db.has_id(rec.0) {
            Err((LoadFailure::Duplicate, db))
        } else {
            spec_load_basics(
                FoodDatabaseV {
                    basic: db.basic.push(
                        BasicFoodV {
                            identifier: rec.0,
                            keywords: rec.1,
                            calories_per_serving: rec.2,
                        },
                    ),
                    composite: db.composite,
                },
                recs.drop_first(),
            )
        }
    }
}

/// Loading composite-food records, in file order: each record flattens as
/// `add_composite_food` would, so later records may reference earlier ones;
/// the first collision or missing component stops the load.
pub open spec fn spec_load_composites(
    db: FoodDatabaseV,
    recs: Seq<(Seq<char>, Seq<Seq<char>>, Seq<(Seq<char>, int)>)>,
) -> Result<FoodDatabaseV, (LoadFailure, FoodDatabaseV)>
    decreases recs.len(),
{
    if recs.len() == 0 {
        Ok(db)
    } else {
        let rec = recs.first();
        if db.has_id(rec.0) {
            Err((LoadFailure::Duplicate, db))
        } else {
            match spec_expand_refs(db, rec.2) {
                Err(mid) => Err((LoadFailure::Missing(mid), db)),
                Ok(comps) => spec_load_composites(
                    FoodDatabaseV {
                        basic: db.basic,
                        composite: db.composite.push(
                            CompositeFoodV { identifier: rec.0, keywords: rec.1, components: comps },
                        ),
                    },
                    recs.drop_first(),
                ),
            }
        }
    }
}

/// A whole catalog load: all atomic records, then all composite records.
pub open spec fn spec_load(
    db: FoodDatabaseV,
    basics: Seq<(Seq<char>, Seq<Seq<char>>, int)>,
    composites: Seq<(Seq<char>, Seq<Seq<char>>, Seq<(Seq<char>, int)>)>,
) -> Result<FoodDatabaseV, (LoadFailure, FoodDatabaseV)> {
    match spec_load_basics(db, basics) {
        Err(e) => Err(e),
        Ok(db1) => spec_load_composites(db1, composites),
    }
}

/// Flattening is associative: a composite food built from a single
/// reference to an existing composite food `b` with quantity `q` gets
/// exactly `b`'s components, each quantity scaled by `q`.
pub proof fn lemma_flatten_scales(db: FoodDatabaseV, bid: Seq<char>, q: int)
    requires
        !db.has_basic(bid),
        db.has_composite(bid),
    ensures
        spec_expand_refs(db, seq![(bid, q)]) == Ok::<Seq<(BasicFoodV, int)>, Seq<char>>(
            scale_components(db.composite_at(bid).components, q),
        ),
        forall|i: int|
            0 <= i < db.composite_at(bid).components.len() ==> #[trigger] scale_components(
                db.composite_at(bid).components,
                q,
            )[i] == (db.composite_at(bid).components[i].0, clamp64(
                db.composite_at(bid).components[i].1 * q,
            )),
{
    let refs = seq![(bid, q)];
    assert(refs.drop_last() =~= Seq::<(Seq<char>, int)>::empty());
    assert(spec_expand_refs(db, refs.drop_last()) == Ok::<Seq<(BasicFoodV, int)>, Seq<char>>(
        Seq::empty(),
    ));
    assert(refs.last() == (bid, q));
    assert(Seq::empty() + scale_components(db.composite_at(bid).components, q)
        =~= scale_components(db.composite_at(bid).components, q));
}

} // verus!
