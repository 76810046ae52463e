//! A recipe: name, baseline portions, baseline ingredient quantities, ordered
//! instructions and an image reference, with its text renderings.

use vstd::prelude::*;
use crate::names::{chars_of, lemma_name_lt_irreflexive, lemma_name_lt_total, lemma_name_lt_transitive, name_less, name_lt};
use crate::quantity::{push_scaled, push_whole, scale, scale_spec, scaled_text, whole_text};

verus! {

/// An ingredient list as plain values: (name, quantity in milligrams).
pub type IngredientsView = Seq<(Seq<char>, nat)>;

/// Ingredient names are strictly ascending (hence unique).
pub open spec fn names_sorted(ings: IngredientsView) -> bool {
    forall|i: int, j: int| 0 <= i < j < ings.len() ==> name_lt(#[trigger] ings[i].0, #[trigger] ings[j].0)
}

/// Every ingredient name occurs at most once.
pub open spec fn keys_unique(ings: IngredientsView) -> bool {
    forall|i: int, j: int|
        0 <= i < ings.len() && 0 <= j < ings.len() && i != j ==> #[trigger] ings[i].0 != #[trigger] ings[j].0
}

/// Some entry of `ings` is named `k`.
pub open spec fn has_key(ings: IngredientsView, k: Seq<char>) -> bool {
    exists|i: int| 0 <= i < ings.len() && ings[i].0 == k
}

/// The position of the entry named `k` (meaningful when `has_key`).
pub open spec fn key_index(ings: IngredientsView, k: Seq<char>) -> int {
    choose|i: int| 0 <= i < ings.len() && ings[i].0 == k
}

/// The quantity recorded for `k`, if any.
pub open spec fn lookup(ings: IngredientsView, k: Seq<char>) -> Option<nat> {
    if has_key(ings, k) {
        Some(ings[key_index(ings, k)].1)
    } else {
        None
    }
}

/// `p` splits `ings` into the names before `k` and the rest.
pub open spec fn is_insert_pos(ings: IngredientsView, k: Seq<char>, p: int) -> bool {
    &&& 0 <= p <= ings.len()
    &&& forall|i: int| 0 <= i < p ==> name_lt(#[trigger] ings[i].0, k)
    &&& forall|i: int| p <= i < ings.len() ==> !name_lt(#[trigger] ings[i].0, k)
}

/// Where a new entry named `k` goes to keep the names ascending.
pub open spec fn insert_pos(ings: IngredientsView, k: Seq<char>) -> int {
    choose|p: int| is_insert_pos(ings, k, p)
}

/// `ings` with the entry for `k` set to `v`: replaced in place when present,
/// inserted in name order otherwise.
pub open spec fn upsert(ings: IngredientsView, k: Seq<char>, v: nat) -> IngredientsView {
    if has_key(ings, k) {
        ings.update(key_index(ings, k), (k, v))
    } else {
        ings.insert(insert_pos(ings, k), (k, v))
    }
}

/// The ingredient list obtained by upserting the first `n` entries of `src`
/// into an empty list, in order.
pub open spec fn upsert_all(src: IngredientsView, n: nat) -> IngredientsView
    decreases n,
{
    if n == 0 || n > src.len() {
        Seq::empty()
    } else {
        let prev = upsert_all(src, (n - 1) as nat);
        upsert(prev, src[n - 1].0, src[n - 1].1)
    }
}

/// Ingredient entries as plain values.
pub open spec fn ingredients_view_of(ings: Seq<(String, u64)>) -> IngredientsView {
    ings.map_values(|p: (String, u64)| (p.0@, p.1 as nat))
}

/// Ascending names are unique names.
pub proof fn lemma_sorted_unique(ings: IngredientsView)
    requires
        names_sorted(ings),
    ensures
        keys_unique(ings),
{
    assert forall|i: int, j: int|
        0 <= i < ings.len() && 0 <= j < ings.len() && i != j implies #[trigger] ings[i].0 != #[trigger] ings[j].0 by {
        lemma_name_lt_irreflexive(ings[i].0);
        lemma_name_lt_irreflexive(ings[j].0);
        if i < j {
            assert(name_lt(ings[i].0, ings[j].0));
        } else {
            assert(name_lt(ings[j].0, ings[i].0));
        }
    }
}

/// A split position, when there is one, is the one `insert_pos` names.
proof fn lemma_insert_pos_unique(ings: IngredientsView, k: Seq<char>, p: int)
    requires
        is_insert_pos(ings, k, p),
    ensures
        insert_pos(ings, k) == p,
{
    let c = insert_pos(ings, k);
    assert(is_insert_pos(ings, k, c));
    if c < p {
        assert(name_lt(ings[c].0, k));
    } else if p < c {
        assert(name_lt(ings[p].0, k));
    }
}

/// A sorted list has a split position for every name.
proof fn lemma_insert_pos_exists(ings: IngredientsView, k: Seq<char>)
    requires
        names_sorted(ings),
    ensures
        is_insert_pos(ings, k, insert_pos(ings, k)),
    decreases ings.len(),
{
    if ings.len() == 0 {
        assert(is_insert_pos(ings, k, 0));
    } else {
        let n = ings.len() - 1;
        let init = ings.drop_last();
        assert forall|i: int, j: int| 0 <= i < j < init.len() implies name_lt(
            #[trigger] init[i].0,
            #[trigger] init[j].0,
        ) by {
            assert(name_lt(ings[i].0, ings[j].0));
        }
        lemma_insert_pos_exists(init, k);
        let p = insert_pos(init, k);
        if name_lt(ings[n].0, k) {
            assert forall|i: int| 0 <= i < ings.len() implies name_lt(#[trigger] ings[i].0, k) by {
                if i < n {
                    assert(name_lt(ings[i].0, ings[n].0));
                    lemma_name_lt_transitive(ings[i].0, ings[n].0, k);
                }
            }
            assert(is_insert_pos(ings, k, ings.len() as int));
        } else {
            assert forall|i: int| 0 <= i < p implies name_lt(#[trigger] ings[i].0, k) by {
                assert(init[i] == ings[i]);
            }
            assert forall|i: int| p <= i < ings.len() implies !name_lt(#[trigger] ings[i].0, k) by {
                if i < n {
                    assert(init[i] == ings[i]);
                }
            }
            assert(is_insert_pos(ings, k, p));
        }
    }
}

/// Setting one entry keeps the names ascending.
pub proof fn lemma_upsert_sorted(ings: IngredientsView, k: Seq<char>, v: nat)
    requires
        names_sorted(ings),
    ensures
        names_sorted(upsert(ings, k, v)),
{
    let after = upsert(ings, k, v);
    if has_key(ings, k) {
        let c = key_index(ings, k);
        assert forall|a: int, b: int| 0 <= a < b < after.len() implies name_lt(
            #[trigger] after[a].0,
            #[trigger] after[b].0,
        ) by {
            assert(after[a].0 == ings[a].0);
            assert(after[b].0 == ings[b].0);
        }
    } else {
        lemma_insert_pos_exists(ings, k);
        let j = insert_pos(ings, k);
        assert forall|a: int, b: int| 0 <= a < b < after.len() implies name_lt(
            #[trigger] after[a].0,
            #[trigger] after[b].0,
        ) by {
            if b < j {
                assert(name_lt(ings[a].0, ings[b].0));
            } else if b == j {
                assert(name_lt(ings[a].0, k));
            } else if a < j {
                assert(name_lt(ings[a].0, ings[b - 1].0));
            } else if a == j {
                assert(!name_lt(ings[b - 1].0, k));
                assert(ings[b - 1].0 != k);
                lemma_name_lt_total(ings[b - 1].0, k);
            } else {
                assert(name_lt(ings[a - 1].0, ings[b - 1].0));
            }
        }
    }
}

/// In a list with unique names, the lookup of an entry's name finds it.
proof fn lemma_lookup_at(ings: IngredientsView, i: int)
    requires
        keys_unique(ings),
        0 <= i < ings.len(),
    ensures
        lookup(ings, ings[i].0) == Some(ings[i].1),
{
    let c = key_index(ings, ings[i].0);
    assert(has_key(ings, ings[i].0));
    if c != i {
        assert(ings[c].0 != ings[i].0);
    }
}

/// After setting `k` to `v`, looking up `k` gives `v` and every other name
/// gives what it gave before.
pub proof fn lemma_lookup_upsert(ings: IngredientsView, k: Seq<char>, v: nat, k2: Seq<char>)
    requires
        names_sorted(ings),
    ensures
        lookup(upsert(ings, k, v), k2) == if k2 == k {
            Some(v)
        } else {
            lookup(ings, k2)
        },
{
    let after = upsert(ings, k, v);
    lemma_upsert_sorted(ings, k, v);
    lemma_sorted_unique(ings);
    lemma_sorted_unique(after);
    if has_key(ings, k) {
        let c = key_index(ings, k);
        if k2 == k {
            lemma_lookup_at(after, c);
        } else if has_key(ings, k2) {
            let e = key_index(ings, k2);
            assert(after[e] == ings[e]);
            lemma_lookup_at(after, e);
        } else {
            if has_key(after, k2) {
                let d = choose|d: int| 0 <= d < after.len() && after[d].0 == k2;
                assert(ings[d].0 == k2);
            }
        }
    } else {
        lemma_insert_pos_exists(ings, k);
        let p = insert_pos(ings, k);
        if k2 == k {
            assert(after[p] == (k, v));
            lemma_lookup_at(after, p);
        } else if has_key(ings, k2) {
            let e = key_index(ings, k2);
            let e2 = if e < p { e } else { e + 1 };
            assert(after[e2] == ings[e]);
            lemma_lookup_at(after, e2);
        } else {
            if has_key(after, k2) {
                let d = choose|d: int| 0 <= d < after.len() && after[d].0 == k2;
                if d < p {
                    assert(ings[d].0 == k2);
                } else if d > p {
                    assert(ings[d - 1].0 == k2);
                }
            }
        }
    }
}

/// Building a recipe from entries with distinct names keeps every entry:
/// the recipe has as many ingredients as the source, and records for each
/// name exactly the source's quantity, whatever the source's order.
pub proof fn ingredients_round_trip(src: IngredientsView, k: Seq<char>)
    requires
        keys_unique(src),
    ensures
        upsert_all(src, src.len()).len() == src.len(),
        lookup(upsert_all(src, src.len()), k) == lookup(src, k),
{
    lemma_upsert_all_lookup(src, src.len(), k);
    assert(src.subrange(0, src.len() as int) =~= src);
}

proof fn lemma_upsert_all_lookup(src: IngredientsView, n: nat, k: Seq<char>)
    requires
        keys_unique(src),
        n <= src.len(),
    ensures
        names_sorted(upsert_all(src, n)),
        upsert_all(src, n).len() == n,
        lookup(upsert_all(src, n), k) == lookup(src.subrange(0, n as int), k),
    decreases n,
{
    let pre = src.subrange(0, n as int);
    assert(keys_unique(pre)) by {
        assert forall|i: int, j: int|
            0 <= i < pre.len() && 0 <= j < pre.len() && i != j implies #[trigger] pre[i].0
                != #[trigger] pre[j].0 by {
            assert(src[i].0 != src[j].0);
        }
    }
    if n == 0 {
        assert(!has_key(pre, k));
    } else {
        let kn = src[n - 1].0;
        let prev = upsert_all(src, (n - 1) as nat);
        let shorter = src.subrange(0, n - 1);
        lemma_upsert_all_lookup(src, (n - 1) as nat, k);
        lemma_upsert_all_lookup(src, (n - 1) as nat, kn);
        lemma_upsert_sorted(prev, kn, src[n - 1].1);
        lemma_lookup_upsert(prev, kn, src[n - 1].1, k);
        if has_key(shorter, kn) {
            let i = choose|i: int| 0 <= i < shorter.len() && shorter[i].0 == kn;
            assert(src[i].0 != src[n - 1].0);
        }
        assert(!has_key(shorter, kn));
        assert(!has_key(prev, kn));
        lemma_insert_pos_exists(prev, kn);
        assert(pre[n - 1] == src[n - 1]);
        if k == kn {
            lemma_lookup_at(pre, n - 1);
        } else if has_key(shorter, k) {
            let e = key_index(shorter, k);
            assert(pre[e] == shorter[e]);
            lemma_lookup_at(pre, e);
        } else if has_key(pre, k) {
            let d = choose|d: int| 0 <= d < pre.len() && pre[d].0 == k;
            assert(shorter[d] == pre[d]);
        }
    }
}

/// Building a recipe from entries whose names ascend keeps every entry, in
/// order: the recipe's ingredients equal the source's.
pub proof fn sorted_ingredients_are_kept(src: IngredientsView)
    requires
        names_sorted(src),
    ensures
        upsert_all(src, src.len()) == src,
{
    lemma_upsert_all_prefix(src, src.len());
    assert(src.subrange(0, src.len() as int) =~= src);
}

proof fn lemma_upsert_all_prefix(src: IngredientsView, n: nat)
    requires
        names_sorted(src),
        n <= src.len(),
    ensures
        upsert_all(src, n) == src.subrange(0, n as int),
    decreases n,
{
    if n == 0 {
        assert(src.subrange(0, 0) =~= Seq::<(Seq<char>, nat)>::empty());
    } else {
        lemma_upsert_all_prefix(src, (n - 1) as nat);
        let prev = src.subrange(0, n - 1);
        let k = src[n - 1].0;
        lemma_name_lt_irreflexive(k);
        if has_key(prev, k) {
            let i = choose|i: int| 0 <= i < prev.len() && prev[i].0 == k;
            assert(name_lt(src[i].0, src[n - 1].0));
        }
        assert forall|i: int| 0 <= i < n - 1 implies name_lt(#[trigger] prev[i].0, k) by {
            assert(name_lt(src[i].0, src[n - 1].0));
        }
        lemma_insert_pos_unique(prev, k, n - 1);
        assert(prev.insert(n - 1, src[n - 1]) =~= src.subrange(0, n as int));
    }
}

/// One line of the ingredient text: `"<name>: <scaled quantity> g\n"`.
pub open spec fn ingredient_line(name: Seq<char>, mg: nat, pct: nat) -> Seq<char> {
    name + ": "@ + scaled_text(scale_spec(mg as int, pct as int) as nat) + " g\n"@
}

/// The lines of the first `n` ingredients, in list order.
pub open spec fn ingredient_lines(ings: IngredientsView, pct: nat, n: nat) -> Seq<char>
    decreases n,
{
    if n == 0 || n > ings.len() {
        Seq::empty()
    } else {
        ingredient_lines(ings, pct, (n - 1) as nat)
            + ingredient_line(ings[n - 1].0, ings[n - 1].1, pct)
    }
}

/// One line of the instruction text: `"<position>. <step>\n"`, 1-based.
pub open spec fn instruction_line(position: nat, step: Seq<char>) -> Seq<char> {
    whole_text(position) + ". "@ + step + "\n"@
}

/// The lines of the first `n` steps, numbered from 1, in order.
pub open spec fn instruction_lines(steps: Seq<Seq<char>>, n: nat) -> Seq<char>
    decreases n,
{
    if n == 0 || n > steps.len() {
        Seq::empty()
    } else {
        instruction_lines(steps, (n - 1) as nat) + instruction_line(n, steps[n - 1])
    }
}

/// A recipe. Quantities are fixed-point: `portions` in thousandths of a
/// serving, ingredient quantities in milligrams. In a well-formed recipe the
/// ingredient names are strictly ascending, which fixes the order in which
/// they are listed.
#[derive(Clone, Debug, PartialEq)]
pub struct Recipe {
    pub name: String,
    pub portions: u64,
    pub ingredients: Vec<(String, u64)>,
    pub instructions: Vec<String>,
    pub image: String,
}

impl Default for Recipe {
    fn default() -> (r: Recipe)
        ensures
            r.name@.len() == 0,
            r.portions_view() == 0,
            r.ingredients_view().len() == 0,
            r.instructions@.len() == 0,
            r.image@.len() == 0,
            r.wf(),
    {
        Recipe {
            name: String::new(),
            portions: 0,
            ingredients: Vec::new(),
            instructions: Vec::new(),
            image: String::new(),
        }
    }
}

impl Recipe {
    /// Baseline portions, in thousandths of a serving.
    pub open spec fn portions_view(&self) -> nat {
        self.portions as nat
    }

    /// Baseline ingredients as (name, milligrams), in list order.
    pub open spec fn ingredients_view(&self) -> IngredientsView {
        ingredients_view_of(self.ingredients@)
    }

    /// The instruction steps as character sequences, in order.
    pub open spec fn steps_view(&self) -> Seq<Seq<char>> {
        self.instructions@.map_values(|s: String| s@)
    }

    /// Ingredient names are strictly ascending.
    pub open spec fn wf(&self) -> bool {
        names_sorted(self.ingredients_view())
    }

    /// A recipe named `name` with nothing else in it.
    pub fn default_with_name(name: &str) -> (r: Recipe)
        ensures
            r.name@ == name@,
            r.portions_view() == 0,
            r.ingredients_view().len() == 0,
            r.instructions@.len() == 0,
            r.image@.len() == 0,
            r.wf(),
    {
        Recipe {
            name: String::from_str(name),
            portions: 0,
            ingredients: Vec::new(),
            instructions: Vec::new(),
            image: String::new(),
        }
    }

    /// A recipe built from its parts. The ingredient entries are set one
    /// after another with `add_ingredient`, so they end up listed by name and
    /// a repeated name keeps its last quantity.
    pub fn from_parts(
        name: String,
        portions: u64,
        ingredients: Vec<(String, u64)>,
        instructions: Vec<String>,
        image: String,
    ) -> (r: Recipe)
        ensures
            r.wf(),
            r.name == name,
            r.portions == portions,
            r.ingredients_view() == upsert_all(
                ingredients_view_of(ingredients@),
                ingredients@.len(),
            ),
            r.instructions == instructions,
            r.image == image,
    {
        let ghost src = ingredients_view_of(ingredients@);
        let mut r = Recipe { name, portions, ingredients: Vec::new(), instructions, image };
        let mut i: usize = 0;
        assert(r.ingredients_view() =~= upsert_all(src, 0));
        while i < ingredients.len()
            invariant
                src == ingredients_view_of(ingredients@),
                i <= ingredients@.len(),
                r.wf(),
                r.ingredients_view() == upsert_all(src, i as nat),
                r.name == name,
                r.portions == portions,
                r.instructions == instructions,
                r.image == image,
            decreases ingredients@.len() - i,
        {
            r.add_ingredient(ingredients[i].0.as_str(), ingredients[i].1);
            assert(src[i as int] == (ingredients@[i as int].0@, ingredients@[i as int].1 as nat));
            i = i + 1;
        }
        r
    }

    /// Baseline portions, in thousandths of a serving.
    pub fn portions(&self) -> (r: u64)
        ensures
            r as nat == self.portions_view(),
    {
        self.portions
    }

    /// The baseline quantity of ingredient `ingredient`, in milligrams.
    pub fn ingredient(&self, ingredient: &str) -> (r: Option<u64>)
        requires
            self.wf(),
        ensures
            r matches Some(v) ==> lookup(self.ingredients_view(), ingredient@) == Some(v as nat),
            r is None ==> lookup(self.ingredients_view(), ingredient@) is None,
    {
        match self.position_of(ingredient) {
            Some(i) => Some(self.ingredients[i].1),
            None => None,
        }
    }

    /// Where ingredient `key` stands in the list, if it is there.
    fn position_of(&self, key: &str) -> (r: Option<usize>)
        requires
            self.wf(),
        ensures
            r matches Some(i) ==> has_key(self.ingredients_view(), key@) && i
                == key_index(self.ingredients_view(), key@) && i < self.ingredients@.len(),
            r is None ==> !has_key(self.ingredients_view(), key@),
    {
        let ghost ings = self.ingredients_view();
        proof {
            lemma_sorted_unique(ings);
        }
        let k = String::from_str(key);
        let mut i: usize = 0;
        while i < self.ingredients.len()
            invariant
                ings == self.ingredients_view(),
                keys_unique(ings),
                k@ == key@,
                i <= self.ingredients@.len(),
                forall|j: int| 0 <= j < i ==> ings[j].0 != key@,
            decreases self.ingredients@.len() - i,
        {
            if self.ingredients[i].0 == k {
                proof {
                    assert(ings[i as int].0 == key@);
                    let c = key_index(ings, key@);
                    assert(0 <= c < ings.len() && ings[c].0 == key@);
                    if c != i as int {
                        assert(ings[c].0 != ings[i as int].0);
                    }
                }
                return Some(i);
            }
            i = i + 1;
        }
        None
    }

    /// Sets the baseline quantity of `ingredient` to `milligrams`, replacing
    /// an existing entry in place or inserting a new one in name order.
    pub fn add_ingredient(&mut self, ingredient: &str, milligrams: u64)
        requires
            old(self).wf(),
        ensures
            final(self).wf(),
            final(self).ingredients_view() == upsert(
                old(self).ingredients_view(),
                ingredient@,
                milligrams as nat,
            ),
            final(self).name == old(self).name,
            final(self).portions_view() == old(self).portions_view(),
            final(self).instructions == old(self).instructions,
            final(self).image == old(self).image,
    {
        let ghost before = self.ingredients_view();
        let ghost k = ingredient@;
        let key = chars_of(ingredient);
        let mut j: usize = 0;
        loop
            invariant
                before == self.ingredients_view(),
                names_sorted(before),
                key@ == k,
                j <= self.ingredients@.len(),
                forall|i: int| 0 <= i < j ==> name_lt(#[trigger] before[i].0, k),
            ensures
                before == self.ingredients_view(),
                j <= self.ingredients@.len(),
                forall|i: int| 0 <= i < j ==> name_lt(#[trigger] before[i].0, k),
                j == self.ingredients@.len() || !name_lt(before[j as int].0, k),
            decreases self.ingredients@.len() - j,
        {
            if j == self.ingredients.len() {
                break;
            }
            let c = chars_of(self.ingredients[j].0.as_str());
            assert(before[j as int].0 == c@);
            if !name_less(&c, &key) {
                break;
            }
            j = j + 1;
        }
        proof {
            assert forall|i: int| j <= i < before.len() implies !name_lt(#[trigger] before[i].0, k) by {
                if i > j && name_lt(before[i].0, k) {
                    assert(name_lt(before[j as int].0, before[i].0));
                    lemma_name_lt_transitive(before[j as int].0, before[i].0, k);
                }
            }
            lemma_insert_pos_unique(before, k, j as int);
            lemma_sorted_unique(before);
            lemma_name_lt_irreflexive(k);
        }
        let name = String::from_str(ingredient);
        if j < self.ingredients.len() && self.ingredients[j].0 == name {
            proof {
                assert(before[j as int].0 == k);
                let c = key_index(before, k);
                assert(0 <= c < before.len() && before[c].0 == k);
                if c != j as int {
                    assert(before[c].0 != before[j as int].0);
                }
            }
            self.ingredients.set(j, (name, milligrams));
            assert(self.ingredients_view() =~= before.update(j as int, (k, milligrams as nat)));
            proof {
                lemma_upsert_sorted(before, k, milligrams as nat);
            }
        } else {
            proof {
                if has_key(before, k) {
                    let i = choose|i: int| 0 <= i < before.len() && before[i].0 == k;
                    if i > j {
                        assert(name_lt(before[j as int].0, before[i].0));
                    }
                }
            }
            self.ingredients.insert(j, (name, milligrams));
            assert(self.ingredients_view() =~= before.insert(j as int, (k, milligrams as nat)));
            proof {
                lemma_upsert_sorted(before, k, milligrams as nat);
            }
        }
    }

    /// The ingredient text at multiplier `pct` (percent): a heading, a
    /// separator, then one line per ingredient in list order.
    pub fn ingredients_to_string(&self, pct: u64) -> (r: String)
        ensures
            r@ == "Ingredients\n---------------\n"@ + ingredient_lines(
                self.ingredients_view(),
                pct as nat,
                self.ingredients_view().len(),
            ),
    {
        let ghost ings = self.ingredients_view();
        let mut out = String::from_str("Ingredients\n---------------\n");
        let mut i: usize = 0;
        while i < self.ingredients.len()
            invariant
                ings == self.ingredients_view(),
                i <= self.ingredients@.len(),
                out@ == "Ingredients\n---------------\n"@ + ingredient_lines(ings, pct as nat, i as nat),
            decreases self.ingredients@.len() - i,
        {
            let ghost before = out@;
            let entry = &self.ingredients[i];
            out.append(entry.0.as_str());
            out.append(": ");
            push_scaled(&mut out, scale(entry.1, pct));
            out.append(" g\n");
            proof {
                assert(ings[i as int] == (entry.0@, entry.1 as nat));
                assert(out@ =~= before + ingredient_line(ings[i as int].0, ings[i as int].1, pct as nat));
                assert(ingredient_lines(ings, pct as nat, (i + 1) as nat) == ingredient_lines(ings, pct as nat, i as nat)
                    + ingredient_line(ings[i as int].0, ings[i as int].1, pct as nat));
            }
            i = i + 1;
        }
        out
    }

    /// The ingredient text at multiplier `pct` (percent); the same text as
    /// `ingredients_to_string`.
    pub fn ingredients_multiplied_to_string(&self, pct: u64) -> (r: String)
        ensures
            r@ == "Ingredients\n---------------\n"@ + ingredient_lines(
                self.ingredients_view(),
                pct as nat,
                self.ingredients_view().len(),
            ),
    {
        self.ingredients_to_string(pct)
    }

    /// The instruction text: a heading, a separator, then each step prefixed
    /// with its 1-based position, in order.
    pub fn instructions_to_string(&self) -> (r: String)
        ensures
            r@ == "Instructions\n---------------\n"@ + instruction_lines(
                self.steps_view(),
                self.instructions@.len(),
            ),
    {
        let ghost steps = self.steps_view();
        let mut out = String::from_str("Instructions\n---------------\n");
        let mut i: usize = 0;
        while i < self.instructions.len()
            invariant
                steps == self.steps_view(),
                i <= self.instructions@.len(),
                out@ == "Instructions\n---------------\n"@ + instruction_lines(steps, i as nat),
            decreases self.instructions@.len() - i,
        {
            let ghost before = out@;
            push_whole(&mut out, (i as u128) + 1);
            out.append(". ");
            out.append(self.instructions[i].as_str());
            out.append("\n");
            proof {
                assert(steps[i as int] == self.instructions@[i as int]@);
                assert(out@ =~= before + instruction_line((i + 1) as nat, steps[i as int]));
            }
            i = i + 1;
        }
        out
    }

    /// The portion text at multiplier `pct` (percent): `"Portions: <scaled>"`.
    pub fn portions_multiplied_to_string(&self, pct: u64) -> (r: String)
        ensures
            r@ == "Portions: "@ + scaled_text(
                scale_spec(self.portions_view() as int, pct as int) as nat,
            ),
    {
        let mut out = String::from_str("Portions: ");
        push_scaled(&mut out, scale(self.portions, pct));
        out
    }
}

} // verus!
