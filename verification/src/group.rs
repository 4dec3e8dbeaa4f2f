//! Grouping of indexed items by an optional string key, and ordering of the groups.
use vstd::prelude::*;

use crate::ledger::opt_view;
use crate::text::{lex_lt, string_lt};

verus! {

/// The views of a list of optional keys.
pub open spec fn keys_view(keys: Seq<Option<String>>) -> Seq<Option<Seq<char>>> {
    keys.map_values(|k: Option<String>| opt_view(k))
}

/// The indices of `subset` (in order) whose key is `k`.
pub open spec fn members_with_key(kv: Seq<Option<Seq<char>>>, subset: Seq<usize>, k: Seq<char>) -> Seq<
    usize,
>
    decreases subset.len(),
{
    if subset.len() == 0 {
        Seq::empty()
    } else {
        let prev = members_with_key(kv, subset.drop_last(), k);
        let i = subset.last() as int;
        if i < kv.len() && kv[i] == Some(k) {
            prev.push(subset.last())
        } else {
            prev
        }
    }
}

/// Some index of `subset` has key `k`.
pub open spec fn key_occurs(kv: Seq<Option<Seq<char>>>, subset: Seq<usize>, k: Seq<char>) -> bool {
    exists|j: int|
        0 <= j < subset.len() && (subset[j] as int) < kv.len() && kv[subset[j] as int] == Some(k)
}

/// No two names are equal.
pub open spec fn distinct_names(names: Seq<String>) -> bool {
    forall|a: int, b: int| 0 <= a < b < names.len() ==> (#[trigger] names[a])@ != (#[trigger] names[b])@
}

/// The names are in strictly increasing order.
pub open spec fn sorted_names(names: Seq<String>) -> bool {
    forall|a: int, b: int| 0 <= a < b < names.len() ==> lex_lt((#[trigger] names[a])@, (#[trigger] names[b])@)
}

/// `names`/`members` group `subset` by key: distinct names, each with the non-empty list of
/// the indices that carry it, and a group for every key that occurs.
pub open spec fn is_grouping(
    kv: Seq<Option<Seq<char>>>,
    subset: Seq<usize>,
    names: Seq<String>,
    members: Seq<Vec<usize>>,
) -> bool {
    &&& names.len() == members.len()
    &&& distinct_names(names)
    &&& forall|g: int|
        0 <= g < names.len() ==> (#[trigger] members[g])@ == members_with_key(kv, subset, names[g]@)
    &&& forall|g: int| 0 <= g < names.len() ==> (#[trigger] members[g])@.len() > 0
    &&& forall|k: Seq<char>| #[trigger] key_occurs(kv, subset, k) ==> exists|g: int| 0 <= g < names.len() && (#[trigger] names[g])@ == k
}

fn find_name(names: &Vec<String>, key: &String) -> (r: Option<usize>)
    ensures
        r matches Some(g) ==> g < names@.len() && names@[g as int]@ == key@,
        r is None ==> forall|g: int| 0 <= g < names@.len() ==> (#[trigger] names@[g])@ != key@,
{
    let n = names.len();
    let mut i: usize = 0;
    while i < n
        invariant
            n == names@.len(),
            i <= n,
            forall|g: int| 0 <= g < i ==> (#[trigger] names@[g])@ != key@,
        decreases n - i,
    {
        if names[i] == *key {
            return Some(i);
        }
        i = i + 1;
    }
    None
}

/// Groups the indices of `subset` by their key (indices without a key are left out), in the
/// order in which keys first occur.
pub fn group_indices(keys: &Vec<Option<String>>, subset: &Vec<usize>) -> (r: (Vec<String>, Vec<Vec<usize>>))
    ensures
        is_grouping(keys_view(keys@), subset@, r.0@, r.1@),
{
    let ghost kv = keys_view(keys@);
    let mut names: Vec<String> = Vec::new();
    let mut members: Vec<Vec<usize>> = Vec::new();
    let n = subset.len();
    let nk = keys.len();
    let mut j: usize = 0;
    while j < n
        invariant
            n == subset@.len(),
            nk == keys@.len(),
            kv == keys_view(keys@),
            j <= n,
            is_grouping(kv, subset@.take(j as int), names@, members@),
        decreases n - j,
    {
        let ghost pre = subset@.take(j as int);
        let ghost post = subset@.take(j + 1);
        assert(post.drop_last() =~= pre);
        let i = subset[j];
        let ghost old_names = names@;
        let ghost old_members = members@;
        if i < nk {
            match &keys[i] {
                Some(k) => {
                    assert(kv[i as int] == Some(k@));
                    match find_name(&names, k) {
                        Some(g) => {
                            members[g].push(i);
                            proof {
                                assert forall|x: int| 0 <= x < names@.len() implies (#[trigger] members@[x])@
                                    == members_with_key(kv, post, names@[x]@) by {
                                    if x != g {
                                        assert(members@[x] == old_members[x]);
                                    }
                                }
                                assert forall|x: int| 0 <= x < names@.len() implies (#[trigger] members@[x])@.len() > 0 by {
                                    if x != g {
                                        assert(members@[x] == old_members[x]);
                                    }
                                }
                                assert forall|kk: Seq<char>| #[trigger] key_occurs(kv, post, kk) implies exists|x: int| 0 <= x < names@.len() && (#[trigger] names@[x])@ == kk by {
                                    if !key_occurs(kv, pre, kk) {
                                        let w = choose|w: int| 0 <= w < post.len() && (post[w] as int) < kv.len() && kv[post[w] as int] == Some(kk);
                                        if w < j {
                                            assert(pre[w] == post[w]);
                                        } else {
                                            assert(names@[g as int]@ == kk);
                                        }
                                    }
                                }
                            }
                        },
                        None => {
                            let mut m: Vec<usize> = Vec::new();
                            m.push(i);
                            names.push(k.clone());
                            members.push(m);
                            proof {
                                let last = old_names.len() as int;
                                assert(members_with_key(kv, pre, k@) =~= Seq::<usize>::empty()) by {
                                    lemma_members_absent(kv, pre, k@);
                                }
                                assert forall|x: int| 0 <= x < names@.len() implies (#[trigger] members@[x])@
                                    == members_with_key(kv, post, names@[x]@) by {
                                    if x < last {
                                        assert(members@[x] == old_members[x]);
                                        assert(names@[x] == old_names[x]);
                                    }
                                }
                                assert forall|x: int| 0 <= x < names@.len() implies (#[trigger] members@[x])@.len() > 0 by {
                                    if x < last {
                                        assert(members@[x] == old_members[x]);
                                    }
                                }
                                assert forall|a: int, b: int| 0 <= a < b < names@.len() implies (#[trigger] names@[a])@ != (#[trigger] names@[b])@ by {
                                    assert(names@[a] == old_names[a]);
                                    if b < last {
                                        assert(names@[b] == old_names[b]);
                                    }
                                }
                                assert forall|kk: Seq<char>| #[trigger] key_occurs(kv, post, kk) implies exists|x: int| 0 <= x < names@.len() && (#[trigger] names@[x])@ == kk by {
                                    if key_occurs(kv, pre, kk) {
                                        let x = choose|x: int| 0 <= x < old_names.len() && (#[trigger] old_names[x])@ == kk;
                                        assert(names@[x] == old_names[x]);
                                    } else {
                                        let w = choose|w: int| 0 <= w < post.len() && (post[w] as int) < kv.len() && kv[post[w] as int] == Some(kk);
                                        if w < j {
                                            assert(pre[w] == post[w]);
                                        } else {
                                            assert(names@[last]@ == kk);
                                        }
                                    }
                                }
                            }
                        },
                    }
                },
                None => {
                    proof {
                        assert forall|x: int| 0 <= x < names@.len() implies (#[trigger] members@[x])@
                            == members_with_key(kv, post, names@[x]@) by {}
                        assert forall|kk: Seq<char>| #[trigger] key_occurs(kv, post, kk) implies key_occurs(kv, pre, kk) by {
                            let w = choose|w: int| 0 <= w < post.len() && (post[w] as int) < kv.len() && kv[post[w] as int] == Some(kk);
                            if w < j {
                                assert(pre[w] == post[w]);
                            }
                        }
                    }
                },
            }
        } else {
            proof {
                assert forall|x: int| 0 <= x < names@.len() implies (#[trigger] members@[x])@
                    == members_with_key(kv, post, names@[x]@) by {}
                assert forall|kk: Seq<char>| #[trigger] key_occurs(kv, post, kk) implies key_occurs(kv, pre, kk) by {
                    let w = choose|w: int| 0 <= w < post.len() && (post[w] as int) < kv.len() && kv[post[w] as int] == Some(kk);
                    if w < j {
                        assert(pre[w] == post[w]);
                    }
                }
            }
        }
        j = j + 1;
    }
    assert(subset@.take(n as int) =~= subset@);
    (names, members)
}

/// When no index of `subset` carries key `k`, its member list is empty.
pub proof fn lemma_members_absent(kv: Seq<Option<Seq<char>>>, subset: Seq<usize>, k: Seq<char>)
    requires
        !key_occurs(kv, subset, k),
    ensures
        members_with_key(kv, subset, k) == Seq::<usize>::empty(),
    decreases subset.len(),
{
    if subset.len() > 0 {
        let s2 = subset.drop_last();
        assert(!key_occurs(kv, s2, k)) by {
            if key_occurs(kv, s2, k) {
                let w = choose|w: int| 0 <= w < s2.len() && (s2[w] as int) < kv.len() && kv[s2[w] as int] == Some(k);
                assert(subset[w] == s2[w]);
            }
        }
        lemma_members_absent(kv, s2, k);
        let i = subset.last() as int;
        if i < kv.len() && kv[i] == Some(k) {
            assert(key_occurs(kv, subset, k));
        }
    }
}


/// Inserts a group with a new name into groups kept in increasing name order.
#[verifier::rlimit(80)]
fn insert_group(out_names: &mut Vec<String>, out_members: &mut Vec<Vec<usize>>, name: &String, mem: &Vec<usize>)
    requires
        old(out_names)@.len() == old(out_members)@.len(),
        sorted_names(old(out_names)@),
        forall|q: int| 0 <= q < old(out_names)@.len() ==> (#[trigger] old(out_names)@[q])@ != name@,
    ensures
        final(out_names)@.len() == final(out_members)@.len(),
        final(out_names)@.len() == old(out_names)@.len() + 1,
        sorted_names(final(out_names)@),
        forall|g: int| 0 <= g < final(out_names)@.len() ==> ((#[trigger] final(out_names)@[g])@ == name@ && final(out_members)@[g]@ == mem@) || exists|q: int| 0 <= q < old(out_names)@.len() && (#[trigger] old(out_names)@[q])@ == final(out_names)@[g]@ && old(out_members)@[q]@ == final(out_members)@[g]@,
        forall|q: int| 0 <= q < old(out_names)@.len() ==> exists|g: int| 0 <= g < final(out_names)@.len() && (#[trigger] final(out_names)@[g])@ == (#[trigger] old(out_names)@[q])@ && final(out_members)@[g]@ == old(out_members)@[q]@,
        exists|g: int| 0 <= g < final(out_names)@.len() && (#[trigger] final(out_names)@[g])@ == name@,
{
    let m = out_names.len();
    let mut p: usize = 0;
    while p < m && string_lt(out_names[p].as_str(), name.as_str())
        invariant
            m == out_names@.len(),
            p <= m,
            forall|q: int| 0 <= q < p ==> lex_lt((#[trigger] out_names@[q])@, name@),
        decreases m - p,
    {
        p = p + 1;
    }
    let ghost old_names = out_names@;
    let ghost old_members = out_members@;
    proof {
        assert forall|q: int| p <= q < m implies lex_lt(name@, (#[trigger] old_names[q])@) by {
            crate::text::lemma_lex_total(name@, old_names[q]@);
            if q > p {
                assert(lex_lt(old_names[p as int]@, old_names[q]@));
                if lex_lt(old_names[q]@, name@) {
                    crate::text::lemma_lex_transitive(old_names[p as int]@, old_names[q]@, name@);
                    crate::text::lemma_lex_asymmetric(old_names[p as int]@, name@);
                }
            }
        }
    }
    out_names.insert(p, name.clone());
    out_members.insert(p, mem.clone());
    proof {
        assert(out_names@[p as int]@ == name@);
        assert forall|a: int, b: int| 0 <= a < b < out_names@.len() implies lex_lt((#[trigger] out_names@[a])@, (#[trigger] out_names@[b])@) by {
            if b < p {
                assert(out_names@[a] == old_names[a] && out_names@[b] == old_names[b]);
            } else if b == p {
                assert(out_names@[a] == old_names[a]);
            } else if a < p {
                assert(out_names@[a] == old_names[a] && out_names@[b] == old_names[b - 1]);
                crate::text::lemma_lex_transitive(old_names[a]@, name@, old_names[b - 1]@);
            } else if a == p {
                assert(out_names@[b] == old_names[b - 1]);
            } else {
                assert(out_names@[a] == old_names[a - 1] && out_names@[b] == old_names[b - 1]);
            }
        }
        assert forall|g: int| 0 <= g < out_names@.len() implies ((#[trigger] out_names@[g])@ == name@ && out_members@[g]@ == mem@) || exists|q: int| 0 <= q < old_names.len() && (#[trigger] old_names[q])@ == out_names@[g]@ && old_members[q]@ == out_members@[g]@ by {
            if g < p {
                assert(out_names@[g] == old_names[g] && out_members@[g] == old_members[g]);
            } else if g > p {
                assert(out_names@[g] == old_names[g - 1] && out_members@[g] == old_members[g - 1]);
            }
        }
        assert forall|q: int| 0 <= q < old_names.len() implies exists|g: int| 0 <= g < out_names@.len() && (#[trigger] out_names@[g])@ == (#[trigger] old_names[q])@ && out_members@[g]@ == old_members[q]@ by {
            if q < p {
                assert(out_names@[q] == old_names[q] && out_members@[q] == old_members[q]);
            } else {
                assert(out_names@[q + 1] == old_names[q] && out_members@[q + 1] == old_members[q]);
            }
        }
    }
}

/// Groups the indices of `subset` by their key, with the groups in increasing key order.
pub fn group_indices_sorted(keys: &Vec<Option<String>>, subset: &Vec<usize>) -> (r: (Vec<String>, Vec<Vec<usize>>))
    ensures
        is_grouping(keys_view(keys@), subset@, r.0@, r.1@),
        sorted_names(r.0@),
{
    let ghost kv = keys_view(keys@);
    let (names, members) = group_indices(keys, subset);
    let mut out_names: Vec<String> = Vec::new();
    let mut out_members: Vec<Vec<usize>> = Vec::new();
    let n = names.len();
    let mut h: usize = 0;
    while h < n
        invariant
            n == names@.len(),
            is_grouping(kv, subset@, names@, members@),
            h <= n,
            out_names@.len() == out_members@.len(),
            out_names@.len() == h,
            sorted_names(out_names@),
            forall|g: int| 0 <= g < out_names@.len() ==> exists|x: int| 0 <= x < h && (#[trigger] names@[x])@ == (#[trigger] out_names@[g])@ && members@[x]@ == out_members@[g]@,
            forall|x: int| 0 <= x < h ==> exists|g: int| 0 <= g < out_names@.len() && (#[trigger] out_names@[g])@ == (#[trigger] names@[x])@,
        decreases n - h,
    {
        let ghost old_names = out_names@;
        let ghost old_members = out_members@;
        proof {
            assert forall|q: int| 0 <= q < old_names.len() implies (#[trigger] old_names[q])@ != names@[h as int]@ by {
                let x = choose|x: int| 0 <= x < h && (#[trigger] names@[x])@ == (#[trigger] old_names[q])@ && members@[x]@ == old_members[q]@;
                assert(names@[x]@ != names@[h as int]@);
            }
        }
        insert_group(&mut out_names, &mut out_members, &names[h], &members[h]);
        proof {
            assert forall|g: int| 0 <= g < out_names@.len() implies exists|x: int| 0 <= x < h + 1 && (#[trigger] names@[x])@ == (#[trigger] out_names@[g])@ && members@[x]@ == out_members@[g]@ by {
                if out_names@[g]@ == names@[h as int]@ && out_members@[g]@ == members@[h as int]@ {
                } else {
                    let q = choose|q: int| 0 <= q < old_names.len() && (#[trigger] old_names[q])@ == out_names@[g]@ && old_members[q]@ == out_members@[g]@;
                    let x = choose|x: int| 0 <= x < h && (#[trigger] names@[x])@ == (#[trigger] old_names[q])@ && members@[x]@ == old_members[q]@;
                }
            }
            assert forall|x: int| 0 <= x < h + 1 implies exists|g: int| 0 <= g < out_names@.len() && (#[trigger] out_names@[g])@ == (#[trigger] names@[x])@ by {
                if x < h {
                    let q = choose|q: int| 0 <= q < old_names.len() && (#[trigger] old_names[q])@ == (#[trigger] names@[x])@;
                    let g = choose|g: int| 0 <= g < out_names@.len() && (#[trigger] out_names@[g])@ == (#[trigger] old_names[q])@ && out_members@[g]@ == old_members[q]@;
                }
            }
        }
        h = h + 1;
    }
    proof {
        assert forall|a: int, b: int| 0 <= a < b < out_names@.len() implies (#[trigger] out_names@[a])@ != (#[trigger] out_names@[b])@ by {
            crate::text::lemma_lex_irreflexive(out_names@[a]@);
        }
        assert forall|g: int| 0 <= g < out_names@.len() implies (#[trigger] out_members@[g])@ == members_with_key(kv, subset@, out_names@[g]@) by {
            let x = choose|x: int| 0 <= x < n && (#[trigger] names@[x])@ == (#[trigger] out_names@[g])@ && members@[x]@ == out_members@[g]@;
        }
        assert forall|g: int| 0 <= g < out_names@.len() implies (#[trigger] out_members@[g])@.len() > 0 by {
            let x = choose|x: int| 0 <= x < n && (#[trigger] names@[x])@ == (#[trigger] out_names@[g])@ && members@[x]@ == out_members@[g]@;
        }
        assert forall|k: Seq<char>| #[trigger] key_occurs(kv, subset@, k) implies exists|g: int| 0 <= g < out_names@.len() && (#[trigger] out_names@[g])@ == k by {
            let x = choose|x: int| 0 <= x < names@.len() && (#[trigger] names@[x])@ == k;
            let g = choose|g: int| 0 <= g < out_names@.len() && (#[trigger] out_names@[g])@ == (#[trigger] names@[x])@;
        }
    }
    (out_names, out_members)
}

} // verus!
