//! The candidate names that a set of certificate records yields for a target.

use vstd::prelude::*;
use crate::subdomain::CrtShEntry;
use crate::text::{contains_wildcard, has_wildcard, lines, names, names_in, trimmed};

verus! {

/// Every name that the records list, record by record and in the order in
/// which each record lists them.
pub open spec fn listed_names(records: Seq<Seq<char>>) -> Seq<Seq<char>> {
    records.flat_map(|record: Seq<char>| names(record))
}

/// The listed names that may become candidates on their own account: those
/// that are not the target and hold no wildcard.
pub open spec fn admissible(target: Seq<char>) -> spec_fn(Seq<char>) -> bool {
    |name: Seq<char>| name != target && !has_wildcard(name)
}

/// The admissible names of `listed`, each one once, in the order of their
/// first occurrence.
pub open spec fn distinct_admissible(listed: Seq<Seq<char>>, target: Seq<char>) -> Seq<Seq<char>> {
    listed.filter(admissible(target)).remove_duplicates(Seq::empty())
}

/// The candidate names for `target`: the distinct admissible names that the
/// records list, and then the target itself.
pub open spec fn candidates(records: Seq<Seq<char>>, target: Seq<char>) -> Seq<Seq<char>> {
    distinct_admissible(listed_names(records), target).push(target)
}

/// What one more listed name does to the distinct admissible names.
pub proof fn lemma_distinct_admissible_push(
    listed: Seq<Seq<char>>,
    name: Seq<char>,
    target: Seq<char>,
)
    ensures
        distinct_admissible(listed.push(name), target) == if admissible(target)(name)
            && !distinct_admissible(listed, target).contains(name) {
            distinct_admissible(listed, target).push(name)
        } else {
            distinct_admissible(listed, target)
        },
{
    let kept = listed.filter(admissible(target));
    listed.lemma_filter_push(name, admissible(target));
    if admissible(target)(name) {
        kept.lemma_remove_duplicates_properties(Seq::empty());
        kept.lemma_remove_duplicates_append(name, Seq::empty());
        assert(kept + Seq::<Seq<char>>::empty() =~= kept);
        assert(kept + seq![name] =~= kept.push(name));
        assert(kept.remove_duplicates(Seq::empty()) + seq![name] =~= kept.remove_duplicates(
            Seq::empty(),
        ).push(name));
    }
}

/// No records list no names.
pub proof fn lemma_listed_names_empty()
    ensures
        listed_names(Seq::empty()) == Seq::<Seq<char>>::empty(),
{
    let f = |record: Seq<char>| names(record);
    assert(Seq::<Seq<char>>::empty().map_values(f) =~= Seq::<Seq<Seq<char>>>::empty());
}

/// One more record adds the names that it lists.
pub proof fn lemma_listed_names_push(records: Seq<Seq<char>>, record: Seq<char>)
    ensures
        listed_names(records.push(record)) == listed_names(records) + names(record),
{
    records.lemma_flat_map_push(|record: Seq<char>| names(record), record);
}

/// The distinct admissible names are exactly the admissible names, and none
/// occurs twice among them.
pub proof fn lemma_distinct_admissible(listed: Seq<Seq<char>>, target: Seq<char>)
    ensures
        distinct_admissible(listed, target).no_duplicates(),
        forall|name: Seq<char>| #[trigger]
            distinct_admissible(listed, target).contains(name) <==> listed.contains(name) && name
                != target && !has_wildcard(name),
    decreases listed.len(),
{
    let found = distinct_admissible(listed, target);
    if listed.len() == 0 {
        reveal(Seq::filter);
        assert(listed.filter(admissible(target)) =~= Seq::empty());
    } else {
        let init = listed.drop_last();
        let last = listed.last();
        assert(listed =~= init.push(last));
        lemma_distinct_admissible(init, target);
        lemma_distinct_admissible_push(init, last, target);
        let before = distinct_admissible(init, target);
        assert forall|name: Seq<char>| #[trigger]
            found.contains(name) <==> listed.contains(name) && name != target && !has_wildcard(
                name,
            ) by {
            if found.contains(name) {
                let k = choose|k: int| 0 <= k < found.len() && found[k] == name;
                if k < before.len() {
                    assert(before.contains(name));
                    let m = choose|m: int| 0 <= m < init.len() && init[m] == name;
                    assert(listed[m] == name);
                } else {
                    assert(name == last);
                    assert(listed[listed.len() - 1] == name);
                }
            }
            if listed.contains(name) && name != target && !has_wildcard(name) {
                let m = choose|m: int| 0 <= m < listed.len() && listed[m] == name;
                if m < init.len() {
                    assert(init[m] == name);
                    assert(before.contains(name));
                    let k = choose|k: int| 0 <= k < before.len() && before[k] == name;
                    assert(found[k] == name);
                } else {
                    if before.contains(name) {
                    } else {
                        assert(found[found.len() - 1] == name);
                    }
                }
            }
        }
    }
}

/// Every name of every record is among the listed names.
pub proof fn lemma_name_is_listed(records: Seq<Seq<char>>, i: int, j: int)
    requires
        0 <= i < records.len(),
        0 <= j < names(records[i]).len(),
    ensures
        listed_names(records).contains(names(records[i])[j]),
    decreases records.len(),
{
    let init = records.drop_last();
    let last = records.last();
    assert(records =~= init.push(last));
    lemma_listed_names_push(init, last);
    let listed = listed_names(records);
    if i < init.len() {
        lemma_name_is_listed(init, i, j);
        let k = choose|k: int|
            0 <= k < listed_names(init).len() && listed_names(init)[k] == names(records[i])[j];
        assert(listed[k] == names(records[i])[j]);
    } else {
        assert(listed[listed_names(init).len() + j] == names(last)[j]);
    }
}

/// No name occurs twice among the candidates.
pub proof fn lemma_candidates_distinct(records: Seq<Seq<char>>, target: Seq<char>)
    ensures
        candidates(records, target).no_duplicates(),
{
    let found = distinct_admissible(listed_names(records), target);
    lemma_distinct_admissible(listed_names(records), target);
    assert(!found.contains(target));
    assert forall|a: int, b: int|
        0 <= a < found.len() + 1 && 0 <= b < found.len() + 1 && a != b implies found.push(
        target,
    )[a] != found.push(target)[b] by {
        if a < found.len() && b < found.len() {
        } else if a < found.len() {
            assert(found.contains(found[a]));
        } else {
            assert(found.contains(found[b]));
        }
    }
}

/// A name is a candidate exactly when it is the target, or is listed by a
/// record and holds no wildcard.
pub proof fn lemma_candidates_members(records: Seq<Seq<char>>, target: Seq<char>)
    ensures
        forall|name: Seq<char>| #[trigger]
            candidates(records, target).contains(name) <==> name == target || (listed_names(
                records,
            ).contains(name) && !has_wildcard(name)),
{
    let found = distinct_admissible(listed_names(records), target);
    let all = candidates(records, target);
    lemma_distinct_admissible(listed_names(records), target);
    assert forall|name: Seq<char>| #[trigger]
        all.contains(name) <==> name == target || (listed_names(records).contains(name)
            && !has_wildcard(name)) by {
        if all.contains(name) {
            let k = choose|k: int| 0 <= k < all.len() && all[k] == name;
            if k < found.len() {
                assert(found.contains(name));
            }
        }
        if name == target {
            assert(all[found.len() as int] == name);
        } else if listed_names(records).contains(name) && !has_wildcard(name) {
            assert(found.contains(name));
            let k = choose|k: int| 0 <= k < found.len() && found[k] == name;
            assert(all[k] == name);
        }
    }
}

/// Each name that a record lists, however often it is listed and whatever
/// white space stood around it, occurs exactly once among the candidates,
/// unless it holds a wildcard. Names that differ in case are different names.
pub proof fn lemma_listed_name_once(
    records: Seq<Seq<char>>,
    target: Seq<char>,
    i: int,
    j: int,
)
    requires
        0 <= i < records.len(),
        0 <= j < lines(records[i]).len(),
        !has_wildcard(trimmed(lines(records[i])[j])),
    ensures
        candidates(records, target).to_multiset().count(trimmed(lines(records[i])[j])) == 1,
{
    let name = trimmed(lines(records[i])[j]);
    let all = candidates(records, target);
    assert(names(records[i])[j] == name);
    lemma_name_is_listed(records, i, j);
    lemma_candidates_members(records, target);
    lemma_candidates_distinct(records, target);
    assert(all.contains(name));
    vstd::seq_lib::to_multiset_contains(all, name);
    all.lemma_multiset_has_no_duplicates();
}

/// Where the target holds no wildcard, no candidate holds one.
pub proof fn lemma_no_wildcard_candidate(records: Seq<Seq<char>>, target: Seq<char>)
    requires
        !has_wildcard(target),
    ensures
        forall|k: int|
            0 <= k < candidates(records, target).len() ==> !has_wildcard(
                #[trigger] candidates(records, target)[k],
            ),
{
    let all = candidates(records, target);
    lemma_candidates_members(records, target);
    assert forall|k: int| 0 <= k < all.len() implies !has_wildcard(#[trigger] all[k]) by {
        assert(all.contains(all[k]));
    }
}

/// The target is always a candidate: it is the last one, and it occurs
/// exactly once.
pub proof fn lemma_target_is_candidate(records: Seq<Seq<char>>, target: Seq<char>)
    ensures
        candidates(records, target).last() == target,
        candidates(records, target).contains(target),
        candidates(records, target).to_multiset().count(target) == 1,
{
    let all = candidates(records, target);
    assert(all[all.len() - 1] == target);
    lemma_candidates_distinct(records, target);
    vstd::seq_lib::to_multiset_contains(all, target);
    all.lemma_multiset_has_no_duplicates();
}

/// Whether `name` is among `seen`.
fn is_among(seen: &Vec<String>, name: &String) -> (found: bool)
    ensures
        found == seen.deep_view().contains(name@),
{
    let n = seen.len();
    let mut i: usize = 0;
    while i < n
        invariant
            i <= n,
            n == seen.len(),
            forall|k: int| 0 <= k < i ==> seen.deep_view()[k] != name@,
        decreases n - i,
    {
        if seen[i] == *name {
            assert(seen.deep_view()[i as int] == name@);
            return true;
        }
        i += 1;
    }
    false
}

/// Collects the candidate names for `target` from the records.
pub fn collect(records: &Vec<CrtShEntry>, target: &str) -> (found: Vec<String>)
    ensures
        found.deep_view() == candidates(records.deep_view(), target@),
{
    let target_name = String::from_str(target);
    let mut found: Vec<String> = Vec::new();
    let n = records.len();
    let mut i: usize = 0;
    proof {
        lemma_listed_names_empty();
        lemma_distinct_admissible(Seq::empty(), target@);
        assert(records.deep_view().take(0) =~= Seq::empty());
        assert(found.deep_view() =~= Seq::empty());
        assert(distinct_admissible(Seq::empty(), target@) =~= Seq::empty()) by {
            reveal(Seq::filter);
            assert(Seq::<Seq<char>>::empty().filter(admissible(target@)) =~= Seq::empty());
        }
    }
    while i < n
        invariant
            i <= n,
            n == records.len(),
            target_name@ == target@,
            found.deep_view() == distinct_admissible(
                listed_names(records.deep_view().take(i as int)),
                target@,
            ),
        decreases n - i,
    {
        let listed = names_in(records[i].name_value());
        let ghost earlier = listed_names(records.deep_view().take(i as int));
        let m = listed.len();
        let mut j: usize = 0;
        assert(earlier + listed.deep_view().take(0) =~= earlier);
        while j < m
            invariant
                j <= m,
                m == listed.len(),
                target_name@ == target@,
                found.deep_view() == distinct_admissible(
                    earlier + listed.deep_view().take(j as int),
                    target@,
                ),
            decreases m - j,
        {
            let name = &listed[j];
            proof {
                let sofar = earlier + listed.deep_view().take(j as int);
                assert(listed.deep_view()[j as int] == name@);
                assert(earlier + listed.deep_view().take(j + 1) =~= sofar.push(name@));
                lemma_distinct_admissible_push(sofar, name@, target@);
            }
            if !(*name == target_name) && !contains_wildcard(name.as_str()) && !is_among(
                &found,
                name,
            ) {
                let ghost before = found.deep_view();
                let kept = name.clone();
                found.push(kept);
                assert(found.deep_view() =~= before.push(name@));
            }
            j += 1;
        }
        proof {
            assert(listed.deep_view().take(m as int) =~= listed.deep_view());
            assert(records.deep_view()[i as int] == records[i as int]@);
            assert(records.deep_view().take(i + 1) =~= records.deep_view().take(i as int).push(
                records[i as int]@,
            ));
            lemma_listed_names_push(records.deep_view().take(i as int), records[i as int]@);
        }
        i += 1;
    }
    assert(records.deep_view().take(n as int) =~= records.deep_view());
    let ghost before = found.deep_view();
    found.push(target_name);
    assert(found.deep_view() =~= before.push(target@));
    found
}

} // verus!
