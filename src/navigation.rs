//! The page-cursor state machine of the viewer: it holds the loaded recipes,
//! the current page, the pending search text and the portion multiplier, and
//! applies one event at a time.

use vstd::prelude::*;
use crate::quantity::{
    clamp_multiplier, clamp_spec, push_whole, whole_text, MAX_MULTIPLIER_PCT, MIN_MULTIPLIER_PCT,
    UNIT_MULTIPLIER_PCT,
};
use crate::recipe::Recipe;
use crate::search::{lemma_matches_in_range, recipe_names, search_recipe_by_name, search_spec};

verus! {

/// An event of the viewer. `PortionChanged` carries the requested multiplier
/// in percent.
#[derive(Clone, Debug)]
pub enum Message {
    Previous,
    Next,
    SearchChanged(String),
    PortionChanged(u64),
    Search,
}

/// Why a collection could not back a viewer.
#[derive(Clone, Copy, Debug, PartialEq, Eq)]
pub enum LoadError {
    /// The collection holds no recipe.
    Empty,
}

/// The page after `Previous` from page `p`.
pub open spec fn previous_page(p: nat) -> nat {
    if p > 0 {
        (p - 1) as nat
    } else {
        p
    }
}

/// The page after `Next` from page `p` in a collection of `len` recipes.
pub open spec fn next_page(p: nat, len: nat) -> nat {
    if p + 1 < len {
        p + 1
    } else {
        p
    }
}

/// The page after `Search` for `q` from page `p`: the last matching index if
/// any recipe matches, else `p`.
pub open spec fn search_target(recipes: Seq<Recipe>, q: Seq<char>, p: nat) -> nat {
    let m = search_spec(recipes, q);
    if m.len() > 0 {
        m.last() as nat
    } else {
        p
    }
}

/// The page after `k` successive `Next` events from page `p`.
pub open spec fn page_after_nexts(p: nat, len: nat, k: nat) -> nat
    decreases k,
{
    if k == 0 {
        p
    } else {
        next_page(page_after_nexts(p, len, (k - 1) as nat), len)
    }
}

/// The page after `k` successive `Previous` events from page `p`.
pub open spec fn page_after_previouses(p: nat, k: nat) -> nat
    decreases k,
{
    if k == 0 {
        p
    } else {
        previous_page(page_after_previouses(p, (k - 1) as nat))
    }
}

/// The viewer state. `portion_multiplier` is in percent.
#[derive(Debug)]
pub struct AccurateRecipe {
    pub page: usize,
    pub search_value: String,
    pub portion_multiplier: u64,
    pub recipes: Vec<Recipe>,
}

impl AccurateRecipe {
    /// The collection is non-empty, the page indexes it, and the multiplier
    /// lies in the accepted range.
    pub open spec fn wf(&self) -> bool {
        &&& self.recipes@.len() > 0
        &&& self.page < self.recipes@.len()
        &&& MIN_MULTIPLIER_PCT <= self.portion_multiplier
        &&& self.portion_multiplier <= MAX_MULTIPLIER_PCT
    }

    /// A viewer on `recipes` at page 0, multiplier 1.0 and an empty search;
    /// an empty collection is refused.
    pub fn new(recipes: Vec<Recipe>) -> (r: Result<AccurateRecipe, LoadError>)
        ensures
            recipes@.len() == 0 <==> r is Err,
            r matches Err(e) ==> e == LoadError::Empty,
            r matches Ok(s) ==> s.wf() && s.recipes@ == recipes@ && s.page == 0
                && s.portion_multiplier == UNIT_MULTIPLIER_PCT && s.search_value@.len() == 0,
    {
        if recipes.len() == 0 {
            Err(LoadError::Empty)
        } else {
            Ok(AccurateRecipe { page: 0, search_value: String::new(), portion_multiplier: UNIT_MULTIPLIER_PCT, recipes })
        }
    }

    /// Applies one event.
    pub fn update(&mut self, message: Message)
        requires
            old(self).wf(),
        ensures
            final(self).wf(),
            final(self).recipes == old(self).recipes,
            message is Previous ==> final(self).page == previous_page(old(self).page as nat)
                && final(self).search_value == old(self).search_value
                && final(self).portion_multiplier == old(self).portion_multiplier,
            message is Next ==> final(self).page == next_page(
                old(self).page as nat,
                old(self).recipes@.len(),
            ) && final(self).search_value == old(self).search_value
                && final(self).portion_multiplier == old(self).portion_multiplier,
            message matches Message::SearchChanged(v) ==> final(self).search_value@ == v@
                && final(self).page == old(self).page
                && final(self).portion_multiplier == old(self).portion_multiplier,
            message is Search ==> final(self).page == search_target(
                old(self).recipes@,
                old(self).search_value@,
                old(self).page as nat,
            ) && final(self).search_value@.len() == 0
                && final(self).portion_multiplier == old(self).portion_multiplier,
            message matches Message::PortionChanged(v) ==> final(self).portion_multiplier
                == clamp_spec(v as int) && final(self).page == old(self).page
                && final(self).search_value == old(self).search_value,
    {
        match message {
            Message::Previous => {
                if self.page > 0 {
                    self.page = self.page - 1;
                }
            },
            Message::Next => {
                if self.page < self.recipes.len() - 1 {
                    self.page = self.page + 1;
                }
            },
            Message::SearchChanged(value) => {
                self.search_value = value;
            },
            Message::Search => {
                let found = search_recipe_by_name(self.recipes.as_slice(), self.search_value.as_str());
                if found.len() > 0 {
                    let i = found[found.len() - 1].0;
                    proof {
                        let m = search_spec(self.recipes@, self.search_value@);
                        lemma_matches_in_range(recipe_names(self.recipes@), self.search_value@, self.recipes@.len());
                        assert(m.contains(m.last()));
                    }
                    self.page = i;
                }
                self.search_value = String::new();
            },
            Message::PortionChanged(value) => {
                self.portion_multiplier = clamp_multiplier(value);
            },
        }
    }

    /// The recipe on the current page.
    pub fn current_recipe(&self) -> (r: &Recipe)
        requires
            self.wf(),
        ensures
            *r == self.recipes@[self.page as int],
    {
        &self.recipes[self.page]
    }

    /// The label of the previous page: `page - 1`, or `0` on the first page.
    pub fn previous_page_label(&self) -> (r: String)
        ensures
            r@ == whole_text(previous_page(self.page as nat)),
    {
        let mut r = String::new();
        if self.page > 0 {
            push_whole(&mut r, (self.page - 1) as u128);
        } else {
            push_whole(&mut r, 0);
        }
        r
    }

    /// The label of the next page: `page + 1`, or empty on the last page.
    pub fn next_page_label(&self) -> (r: String)
        requires
            self.wf(),
        ensures
            self.page + 1 == self.recipes@.len() ==> r@.len() == 0,
            self.page + 1 != self.recipes@.len() ==> r@ == whole_text((self.page + 1) as nat),
    {
        let mut r = String::new();
        if self.page != self.recipes.len() - 1 {
            push_whole(&mut r, (self.page as u128) + 1);
        }
        r
    }
}

/// Repeated `Next` never passes the last page: from page `p` of a collection
/// of `len` recipes, `k` events land on `p + k`, or on `len - 1` once that is
/// reached.
pub proof fn repeated_next_stays_in_range(p: nat, len: nat, k: nat)
    requires
        p < len,
    ensures
        page_after_nexts(p, len, k) < len,
        page_after_nexts(p, len, k) == if p + k < len {
            p + k
        } else {
            (len - 1) as nat
        },
    decreases k,
{
    if k > 0 {
        repeated_next_stays_in_range(p, len, (k - 1) as nat);
    }
}

/// Repeated `Previous` never goes below page 0: from page `p`, `k` events
/// land on `p - k`, or on 0 once that is reached.
pub proof fn repeated_previous_stays_in_range(p: nat, k: nat)
    ensures
        page_after_previouses(p, k) == if k <= p {
            (p - k) as nat
        } else {
            0
        },
    decreases k,
{
    if k > 0 {
        repeated_previous_stays_in_range(p, (k - 1) as nat);
    }
}

/// In a collection of one recipe, any number of `Next` events leaves the
/// page where it is.
pub proof fn next_on_single_recipe_is_noop(p: nat, k: nat)
    requires
        p < 1,
    ensures
        page_after_nexts(p, 1, k) == p,
{
    repeated_next_stays_in_range(p, 1, k);
}

} // verus!
