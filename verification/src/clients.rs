//! How a cached client selection relates to the clients enabled now.
use vstd::prelude::*;

verus! {

/// The filter name of synthetic (gateway) usage in a client selection.
pub open spec fn synthetic_filter() -> Seq<char> {
    "synthetic"@
}

/// The views of a list of strings.
pub open spec fn strings_view(v: Seq<String>) -> Seq<Seq<char>> {
    v.map_values(|s: String| s@)
}

/// Some element of `v` has view `s`.
pub open spec fn contains_str(v: Seq<String>, s: Seq<char>) -> bool {
    exists|i: int| 0 <= i < v.len() && (#[trigger] v[i])@ == s
}

/// No two elements of `v` have the same view.
pub open spec fn distinct_strings(v: Seq<String>) -> bool {
    forall|a: int, b: int| 0 <= a < b < v.len() ==> (#[trigger] v[a])@ != (#[trigger] v[b])@
}

/// How the cached client set relates to the enabled set.
#[derive(Debug, Clone, Copy, PartialEq, Eq, Structural)]
pub enum ClientMatch {
    /// Same clients and the same synthetic flag.
    Exact,
    /// Every cached client is enabled, but the enabled selection is larger.
    Subset,
    /// Some cached client is not enabled, or the cache holds unwanted synthetic data.
    Mismatch,
}

/// The relation of a cached selection (`cached`, `cached_synthetic`) to the enabled filter
/// set `enabled` (whose synthetic member is named `synthetic`).
pub open spec fn spec_client_match(enabled: Seq<String>, cached: Seq<String>, cached_synthetic: bool) -> ClientMatch {
    let synthetic = contains_str(enabled, synthetic_filter());
    if cached_synthetic && !synthetic {
        ClientMatch::Mismatch
    } else if exists|i: int| 0 <= i < cached.len() && !contains_str(enabled, (#[trigger] cached[i])@) {
        ClientMatch::Mismatch
    } else if synthetic == cached_synthetic && forall|i: int|
        0 <= i < enabled.len() && (#[trigger] enabled[i])@ != synthetic_filter() ==> contains_str(
            cached,
            enabled[i]@,
        ) {
        ClientMatch::Exact
    } else {
        ClientMatch::Subset
    }
}

fn contains_string(v: &Vec<String>, s: &String) -> (r: bool)
    ensures
        r == contains_str(v@, s@),
{
    let n = v.len();
    let mut i: usize = 0;
    while i < n
        invariant
            n == v@.len(),
            i <= n,
            forall|j: int| 0 <= j < i ==> (#[trigger] v@[j])@ != s@,
        decreases n - i,
    {
        if v[i] == *s {
            return true;
        }
        i = i + 1;
    }
    false
}

/// Classifies a cached client selection against the enabled filter set (given as a list of
/// filter names, synthetic usage named `synthetic`): the same clients as sets and the same
/// synthetic flag is exact; cached clients that are all enabled, with no unwanted synthetic
/// usage, are a subset; anything else is a mismatch.
pub fn check_client_match(
    enabled_clients: &Vec<String>,
    cached_clients: &Vec<String>,
    cached_include_synthetic: bool,
) -> (r: ClientMatch)
    ensures
        r == spec_client_match(enabled_clients@, cached_clients@, cached_include_synthetic),
{
    let synthetic = "synthetic".to_owned();
    let include_synthetic = contains_string(enabled_clients, &synthetic);
    if cached_include_synthetic && !include_synthetic {
        return ClientMatch::Mismatch;
    }
    let n = cached_clients.len();
    let mut i: usize = 0;
    while i < n
        invariant
            n == cached_clients@.len(),
            i <= n,
            forall|j: int|
                0 <= j < i ==> contains_str(enabled_clients@, (#[trigger] cached_clients@[j])@),
        decreases n - i,
    {
        if !contains_string(enabled_clients, &cached_clients[i]) {
            return ClientMatch::Mismatch;
        }
        i = i + 1;
    }
    if include_synthetic != cached_include_synthetic {
        return ClientMatch::Subset;
    }
    let m = enabled_clients.len();
    let mut k: usize = 0;
    while k < m
        invariant
            m == enabled_clients@.len(),
            k <= m,
            synthetic@ == synthetic_filter(),
            include_synthetic == contains_str(enabled_clients@, synthetic_filter()),
            include_synthetic == cached_include_synthetic,
            forall|j: int|
                0 <= j < cached_clients@.len() ==> contains_str(enabled_clients@, (#[trigger] cached_clients@[j])@),
            forall|j: int|
                0 <= j < k && (#[trigger] enabled_clients@[j])@ != synthetic_filter() ==> contains_str(
                    cached_clients@,
                    enabled_clients@[j]@,
                ),
        decreases m - k,
    {
        if enabled_clients[k] != synthetic && !contains_string(cached_clients, &enabled_clients[k]) {
            assert(enabled_clients@[k as int]@ != synthetic_filter());
            assert(!contains_str(cached_clients@, enabled_clients@[k as int]@));
            return ClientMatch::Subset;
        }
        k = k + 1;
    }
    ClientMatch::Exact
}

/// A cache that holds synthetic usage the user does not want never matches.
pub proof fn lemma_unwanted_synthetic_mismatches(enabled: Seq<String>, cached: Seq<String>)
    requires
        !contains_str(enabled, synthetic_filter()),
    ensures
        spec_client_match(enabled, cached, true) == ClientMatch::Mismatch,
{
}

/// Whenever the cache is usable (an exact match or a subset), every cached client is enabled,
/// and the cache holds synthetic usage only if the user wants it.
pub proof fn lemma_usable_cache_is_enabled(
    enabled: Seq<String>,
    cached: Seq<String>,
    cached_synthetic: bool,
)
    requires
        spec_client_match(enabled, cached, cached_synthetic) != ClientMatch::Mismatch,
    ensures
        forall|i: int| 0 <= i < cached.len() ==> contains_str(enabled, (#[trigger] cached[i])@),
        cached_synthetic ==> contains_str(enabled, synthetic_filter()),
{
}

/// An exact match means the same clients: the cached client names (the synthetic name not
/// among them) are, as a set, exactly the enabled non-synthetic filters, with the same
/// synthetic flag.
pub proof fn lemma_exact_match_same_clients(
    enabled: Seq<String>,
    cached: Seq<String>,
    cached_synthetic: bool,
)
    requires
        !contains_str(cached, synthetic_filter()),
        spec_client_match(enabled, cached, cached_synthetic) == ClientMatch::Exact,
    ensures
        strings_view(cached).to_set() =~= strings_view(enabled).to_set().remove(synthetic_filter()),
        cached_synthetic == contains_str(enabled, synthetic_filter()),
{
    let ev = strings_view(enabled);
    let cv = strings_view(cached);
    assert forall|x: Seq<char>| cv.to_set().contains(x) implies ev.to_set().remove(synthetic_filter()).contains(x) by {
        let i = choose|i: int| 0 <= i < cv.len() && cv[i] == x;
        assert(cached[i]@ == x);
        assert(contains_str(enabled, cached[i]@));
        let j = choose|j: int| 0 <= j < enabled.len() && (#[trigger] enabled[j])@ == cached[i]@;
        assert(ev[j] == x);
        if x == synthetic_filter() {
            assert(contains_str(cached, synthetic_filter()));
        }
    }
    assert forall|x: Seq<char>| ev.to_set().remove(synthetic_filter()).contains(x) implies cv.to_set().contains(x) by {
        let j = choose|j: int| 0 <= j < ev.len() && ev[j] == x;
        assert(enabled[j]@ == x);
        assert(contains_str(cached, enabled[j]@));
        let i = choose|i: int| 0 <= i < cached.len() && (#[trigger] cached[i])@ == x;
        assert(cv[i] == x);
    }
}

/// The names of a filter selection other than the synthetic one, in order.
pub open spec fn non_synthetic_names(v: Seq<String>) -> Seq<Seq<char>>
    decreases v.len(),
{
    if v.len() == 0 {
        Seq::empty()
    } else if v.last()@ == synthetic_filter() {
        non_synthetic_names(v.drop_last())
    } else {
        non_synthetic_names(v.drop_last()).push(v.last()@)
    }
}

/// How a filter selection is recorded in the cache key: its client names other than
/// `synthetic`, distinct and in increasing order (so the key does not depend on the order
/// the selection was listed in), and whether `synthetic` is selected.
pub fn cache_key_clients(enabled: &Vec<String>) -> (r: (Vec<String>, bool))
    ensures
        crate::price::sorted_distinct_of(non_synthetic_names(enabled@), r.0@),
        r.1 == contains_str(enabled@, synthetic_filter()),
{
    let synthetic = "synthetic".to_owned();
    let mut names: Vec<String> = Vec::new();
    let n = enabled.len();
    let mut i: usize = 0;
    while i < n
        invariant
            n == enabled@.len(),
            i <= n,
            synthetic@ == synthetic_filter(),
            strings_view(names@) == non_synthetic_names(enabled@.take(i as int)),
        decreases n - i,
    {
        assert(enabled@.take(i + 1).drop_last() =~= enabled@.take(i as int));
        if enabled[i] != synthetic {
            let ghost before = names@;
            names.push(enabled[i].clone());
            assert(strings_view(names@) =~= strings_view(before).push(enabled@[i as int]@));
        }
        i = i + 1;
    }
    assert(enabled@.take(n as int) =~= enabled@);
    let include_synthetic = contains_string(enabled, &synthetic);
    (crate::price::sorted_distinct_strings(&names), include_synthetic)
}

} // verus!
