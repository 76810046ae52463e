//! Case-sensitive substring search over recipe names.

use vstd::prelude::*;
use crate::names::chars_of;
use crate::recipe::Recipe;

verus! {

/// `q` occurs in `s` as a contiguous run of characters.
pub open spec fn is_substring(q: Seq<char>, s: Seq<char>) -> bool {
    exists|i: int| 0 <= i && i + q.len() <= s.len() && #[trigger] s.subrange(i, i + q.len()) == q
}

/// The names of `recipes`, in order.
pub open spec fn recipe_names(recipes: Seq<Recipe>) -> Seq<Seq<char>> {
    recipes.map_values(|r: Recipe| r.name@)
}

/// The indices among the first `n` names that contain `q`, in increasing order.
pub open spec fn matching_indices(names: Seq<Seq<char>>, q: Seq<char>, n: nat) -> Seq<int>
    decreases n,
{
    if n == 0 || n > names.len() {
        Seq::empty()
    } else {
        let prev = matching_indices(names, q, (n - 1) as nat);
        if is_substring(q, names[n - 1]) {
            prev.push(n - 1)
        } else {
            prev
        }
    }
}

/// The indices of all recipes whose name contains `q`, in collection order.
pub open spec fn search_spec(recipes: Seq<Recipe>, q: Seq<char>) -> Seq<int> {
    matching_indices(recipe_names(recipes), q, recipes.len())
}

/// Whether `q` occurs in `s` as a contiguous run.
fn contains_chars(s: &Vec<char>, q: &Vec<char>) -> (r: bool)
    ensures
        r == is_substring(q@, s@),
{
    let n = s.len();
    let m = q.len();
    if m > n {
        return false;
    }
    let last = n - m;
    let mut i: usize = 0;
    loop
        invariant
            n == s@.len(),
            m == q@.len(),
            last == n - m,
            i <= last,
            forall|k: int| 0 <= k < i ==> #[trigger] s@.subrange(k, k + q@.len()) != q@,
        decreases last - i,
    {
        let mut j: usize = 0;
        let mut same = true;
        while j < m && same
            invariant
                n == s@.len(),
                m == q@.len(),
                i + m <= n,
                j <= m,
                same ==> forall|t: int| 0 <= t < j ==> s@[i + t] == q@[t],
                !same ==> s@.subrange(i as int, i + m) != q@,
            decreases m - j + (if same { 1int } else { 0 }),
        {
            if s[i + j] != q[j] {
                same = false;
                assert(s@.subrange(i as int, i + m)[j as int] != q@[j as int]);
            } else {
                j = j + 1;
            }
        }
        if same {
            assert(s@.subrange(i as int, i + m) =~= q@);
            return true;
        }
        if i == last {
            proof {
                assert forall|k: int| 0 <= k && k + q@.len() <= s@.len()
                    implies #[trigger] s@.subrange(k, k + q@.len()) != q@ by {
                    assert(k <= i);
                }
            }
            return false;
        }
        i = i + 1;
    }
}

/// The recipes whose name contains `query` (case-sensitive substring match),
/// each with its index, in collection order. An empty query matches every
/// recipe.
pub fn search_recipe_by_name<'a>(recipes: &'a [Recipe], query: &str) -> (r: Vec<(usize, &'a Recipe)>)
    ensures
        r@.len() == search_spec(recipes@, query@).len(),
        forall|k: int|
            0 <= k < r@.len() ==> r@[k].0 as int == search_spec(recipes@, query@)[k]
                && *r@[k].1 == recipes@[r@[k].0 as int],
{
    let ghost names = recipe_names(recipes@);
    let q = chars_of(query);
    let mut r: Vec<(usize, &'a Recipe)> = Vec::new();
    let mut i: usize = 0;
    while i < recipes.len()
        invariant
            names == recipe_names(recipes@),
            q@ == query@,
            i <= recipes@.len(),
            r@.len() == matching_indices(names, query@, i as nat).len(),
            forall|k: int|
                0 <= k < r@.len() ==> r@[k].0 as int == matching_indices(names, query@, i as nat)[k]
                    && *r@[k].1 == recipes@[r@[k].0 as int],
        decreases recipes@.len() - i,
    {
        let ghost prev = r@;
        let name = chars_of(recipes[i].name.as_str());
        let hit = contains_chars(&name, &q);
        if hit {
            r.push((i, &recipes[i]));
        }
        proof {
            assert(names[i as int] == recipes@[i as int].name@);
            let before = matching_indices(names, query@, i as nat);
            let after = matching_indices(names, query@, (i + 1) as nat);
            assert(after == if hit { before.push(i as int) } else { before });
            assert forall|k: int| 0 <= k < r@.len() implies r@[k].0 as int == after[k]
                && *r@[k].1 == recipes@[r@[k].0 as int] by {
                if k < prev.len() {
                    assert(r@[k] == prev[k]);
                }
            }
        }
        i = i + 1;
    }
    r
}

/// Every index that the search yields is an index of the collection whose
/// name contains the query.
pub proof fn lemma_matches_in_range(names: Seq<Seq<char>>, q: Seq<char>, n: nat)
    requires
        n <= names.len(),
    ensures
        forall|k: int|
            0 <= k < matching_indices(names, q, n).len() ==> 0 <= #[trigger] matching_indices(names, q, n)[k] < n
                && is_substring(q, names[matching_indices(names, q, n)[k]]),
    decreases n,
{
    if n > 0 {
        lemma_matches_in_range(names, q, (n - 1) as nat);
        let prev = matching_indices(names, q, (n - 1) as nat);
        let cur = matching_indices(names, q, n);
        assert forall|k: int| 0 <= k < cur.len() implies 0 <= #[trigger] cur[k] < n
            && is_substring(q, names[cur[k]]) by {
            if k < prev.len() {
                assert(cur[k] == prev[k]);
            }
        }
    }
}

/// No index after the last one that the search yields matches the query.
proof fn lemma_last_match_is_greatest(names: Seq<Seq<char>>, q: Seq<char>, n: nat)
    requires
        n <= names.len(),
        matching_indices(names, q, n).len() > 0,
    ensures
        forall|j: int| matching_indices(names, q, n).last() < j < n ==> !is_substring(q, #[trigger] names[j]),
    decreases n,
{
    if !is_substring(q, names[n - 1]) {
        lemma_last_match_is_greatest(names, q, (n - 1) as nat);
    }
}

/// The empty query is contained in every name, so searching for it yields
/// every index of the collection, in order.
pub proof fn search_with_empty_query_matches_all(recipes: Seq<Recipe>)
    ensures
        search_spec(recipes, Seq::empty()) == Seq::new(recipes.len(), |i: int| i),
{
    lemma_empty_query_matches_all(recipe_names(recipes), recipes.len());
}

proof fn lemma_empty_query_matches_all(names: Seq<Seq<char>>, n: nat)
    requires
        n <= names.len(),
    ensures
        matching_indices(names, Seq::empty(), n) == Seq::new(n, |i: int| i),
    decreases n,
{
    if n > 0 {
        lemma_empty_query_matches_all(names, (n - 1) as nat);
        let e = Seq::<char>::empty();
        assert(names[n - 1].subrange(0, 0int + e.len()) =~= e);
        assert(is_substring(Seq::empty(), names[n - 1]));
        assert(matching_indices(names, Seq::empty(), n) =~= Seq::new(n, |i: int| i));
    } else {
        assert(matching_indices(names, Seq::empty(), n) =~= Seq::new(n, |i: int| i));
    }
}

/// When several recipes match, the search's last result is the greatest
/// matching index: it matches, and no recipe after it does.
pub proof fn last_result_is_last_match(recipes: Seq<Recipe>, q: Seq<char>)
    requires
        search_spec(recipes, q).len() > 0,
    ensures
        0 <= search_spec(recipes, q).last() < recipes.len(),
        is_substring(q, recipes[search_spec(recipes, q).last()].name@),
        forall|j: int|
            search_spec(recipes, q).last() < j < recipes.len() ==> !is_substring(
                q,
                #[trigger] recipes[j].name@,
            ),
{
    let names = recipe_names(recipes);
    let m = search_spec(recipes, q);
    lemma_matches_in_range(names, q, recipes.len());
    lemma_last_match_is_greatest(names, q, recipes.len());
    assert(m[m.len() - 1] == m.last());
    assert forall|j: int| m.last() < j < recipes.len() implies !is_substring(q, #[trigger] recipes[j].name@) by {
        assert(names[j] == recipes[j].name@);
    }
}

} // verus!
