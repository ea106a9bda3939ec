//! Class tags kept as a set, and key-value attributes kept as a map.
//!
//! A set of tags is a vector in which no tag occurs twice; a map of
//! attributes is a vector of pairs in which no key occurs twice.  The order
//! in either says nothing.
use vstd::prelude::*;
use crate::text::str_eq;

verus! {

/// The map after the pairs are written into `start` one after the other, a
/// later pair replacing an earlier one with the same key.
pub open spec fn inserted(
    start: Map<Seq<char>, Seq<char>>,
    pairs: Seq<(Seq<char>, Seq<char>)>,
) -> Map<Seq<char>, Seq<char>>
    decreases pairs.len(),
{
    if pairs.len() == 0 {
        start
    } else {
        inserted(start, pairs.drop_last()).insert(pairs.last().0, pairs.last().1)
    }
}

/// The map that pairs make, a later pair replacing an earlier one with the
/// same key.
pub open spec fn pairs_map(pairs: Seq<(Seq<char>, Seq<char>)>) -> Map<Seq<char>, Seq<char>> {
    inserted(Map::empty(), pairs)
}

/// No key occurs in two pairs.
pub open spec fn unique_keys(pairs: Seq<(Seq<char>, Seq<char>)>) -> bool {
    forall|i: int, j: int| 0 <= i < j < pairs.len() ==> pairs[i].0 != pairs[j].0
}

/// The map of pairs has the keys of the pairs and no other; where no key
/// occurs twice, it gives each key the value that stands with it.
pub proof fn lemma_pairs_map(pairs: Seq<(Seq<char>, Seq<char>)>)
    ensures
        forall|key: Seq<char>| #[trigger]
            pairs_map(pairs).dom().contains(key) <==> exists|i: int|
                0 <= i < pairs.len() && (#[trigger] pairs[i]).0 == key,
        unique_keys(pairs) ==> forall|i: int|
            0 <= i < pairs.len() ==> pairs_map(pairs)[(#[trigger] pairs[i]).0] == pairs[i].1,
    decreases pairs.len(),
{
    if pairs.len() > 0 {
        let rest = pairs.drop_last();
        lemma_pairs_map(rest);
        assert(pairs_map(pairs) == pairs_map(rest).insert(pairs.last().0, pairs.last().1));
        assert forall|key: Seq<char>| #[trigger]
            pairs_map(pairs).dom().contains(key) <==> exists|i: int|
                0 <= i < pairs.len() && (#[trigger] pairs[i]).0 == key by {
            if pairs_map(pairs).dom().contains(key) {
                if key == pairs.last().0 {
                    assert(pairs[pairs.len() - 1].0 == key);
                } else {
                    assert(pairs_map(rest).dom().contains(key));
                    let i = choose|i: int| 0 <= i < rest.len() && (#[trigger] rest[i]).0 == key;
                    assert(pairs[i].0 == key);
                }
            }
            if exists|i: int| 0 <= i < pairs.len() && (#[trigger] pairs[i]).0 == key {
                let i = choose|i: int| 0 <= i < pairs.len() && (#[trigger] pairs[i]).0 == key;
                if i < rest.len() {
                    assert(rest[i].0 == key);
                    assert(pairs_map(rest).dom().contains(key));
                }
            }
        }
        if unique_keys(pairs) {
            assert(unique_keys(rest)) by {
                assert forall|i: int, j: int| 0 <= i < j < rest.len() implies rest[i].0
                    != rest[j].0 by {
                    assert(pairs[i].0 != pairs[j].0);
                }
            }
            assert forall|i: int| 0 <= i < pairs.len() implies pairs_map(pairs)[(
            #[trigger] pairs[i]).0] == pairs[i].1 by {
                if i < rest.len() {
                    assert(rest[i] == pairs[i]);
                    assert(pairs[i].0 != pairs[pairs.len() - 1].0);
                }
            }
        }
    }
}

fn position_of_tag(tags: &Vec<String>, tag: &str) -> (r: Option<usize>)
    ensures
        match r {
            Some(i) => i < tags.len() && tags.deep_view()[i as int] == tag@,
            None => !tags.deep_view().contains(tag@),
        },
{
    let mut k: usize = 0;
    while k < tags.len()
        invariant
            k <= tags.len(),
            forall|j: int| 0 <= j < k ==> tags.deep_view()[j] != tag@,
        decreases tags.len() - k,
    {
        if str_eq(tags[k].as_str(), tag) {
            return Some(k);
        }
        k += 1;
    }
    None
}

fn position_of_key(pairs: &Vec<(String, String)>, key: &str) -> (r: Option<usize>)
    ensures
        match r {
            Some(i) => i < pairs.len() && pairs.deep_view()[i as int].0 == key@,
            None => forall|j: int| 0 <= j < pairs.len() ==> pairs.deep_view()[j].0 != key@,
        },
{
    let mut k: usize = 0;
    while k < pairs.len()
        invariant
            k <= pairs.len(),
            forall|j: int| 0 <= j < k ==> pairs.deep_view()[j].0 != key@,
        decreases pairs.len() - k,
    {
        if str_eq(pairs[k].0.as_str(), key) {
            return Some(k);
        }
        k += 1;
    }
    None
}

/// Puts a tag into a set of tags.
pub fn add_tag(tags: &mut Vec<String>, tag: String)
    requires
        old(tags).deep_view().no_duplicates(),
    ensures
        final(tags).deep_view().no_duplicates(),
        final(tags).deep_view().to_set() == old(tags).deep_view().to_set().insert(tag@),
{
    let ghost before = tags.deep_view();
    match position_of_tag(tags, tag.as_str()) {
        Some(i) => {
            assert(before.to_set().insert(tag@) =~= before.to_set()) by {
                assert(before[i as int] == tag@);
            }
        },
        None => {
            tags.push(tag);
            assert(tags.deep_view() =~= before.push(tag@));
            assert(before.push(tag@).to_set() =~= before.to_set().insert(tag@)) by {
                assert forall|t: Seq<char>| before.push(tag@).contains(t) <==> before.contains(t)
                    || t == tag@ by {
                    if before.push(tag@).contains(t) {
                        let i = choose|i: int|
                            0 <= i < before.push(tag@).len() && before.push(tag@)[i] == t;
                        if i < before.len() {
                            assert(before[i] == t);
                        }
                    }
                    if before.contains(t) {
                        let i = choose|i: int| 0 <= i < before.len() && before[i] == t;
                        assert(before.push(tag@)[i] == t);
                    }
                    if t == tag@ {
                        assert(before.push(tag@)[before.len() as int] == t);
                    }
                }
            }
        },
    }
}

/// Puts a pair into a map of attributes, in the place of the pair with the
/// same key where there is one.
pub fn add_keyval(pairs: &mut Vec<(String, String)>, key: String, value: String)
    requires
        unique_keys(old(pairs).deep_view()),
    ensures
        unique_keys(final(pairs).deep_view()),
        pairs_map(final(pairs).deep_view()) == pairs_map(old(pairs).deep_view()).insert(
            key@,
            value@,
        ),
{
    let ghost before = pairs.deep_view();
    match position_of_key(pairs, key.as_str()) {
        Some(i) => {
            let _ = pairs.remove(i);
            let ghost without = pairs.deep_view();
            pairs.push((key, value));
            let ghost after = pairs.deep_view();
            proof {
                assert(without =~= before.remove(i as int));
                assert(after =~= without.push((key@, value@)));
                assert(unique_keys(after)) by {
                    assert forall|a: int, b: int| 0 <= a < b < after.len() implies after[a].0
                        != after[b].0 by {
                        let a0 = if a < i {
                            a
                        } else {
                            a + 1
                        };
                        if b < without.len() {
                            let b0 = if b < i {
                                b
                            } else {
                                b + 1
                            };
                            assert(before[a0].0 != before[b0].0);
                        } else {
                            assert(before[a0].0 != before[i as int].0);
                        }
                    }
                }
                lemma_pairs_map(before);
                lemma_pairs_map(after);
                let target = pairs_map(before).insert(key@, value@);
                assert forall|q: Seq<char>| pairs_map(after).dom().contains(q) <==> target.dom().contains(
                    q,
                ) by {
                    if pairs_map(after).dom().contains(q) {
                        let a = choose|a: int| 0 <= a < after.len() && (#[trigger] after[a]).0 == q;
                        if a < without.len() {
                            let a0 = if a < i {
                                a
                            } else {
                                a + 1
                            };
                            assert(before[a0].0 == q);
                        }
                    }
                    if target.dom().contains(q) {
                        if q == key@ {
                            assert(after[after.len() - 1].0 == q);
                        } else {
                            let b = choose|b: int|
                                0 <= b < before.len() && (#[trigger] before[b]).0 == q;
                            let b1 = if b < i {
                                b
                            } else {
                                b - 1
                            };
                            assert(after[b1].0 == q);
                        }
                    }
                }
                assert forall|q: Seq<char>| pairs_map(after).dom().contains(q) implies pairs_map(
                    after,
                )[q] == target[q] by {
                    let a = choose|a: int| 0 <= a < after.len() && (#[trigger] after[a]).0 == q;
                    if a < without.len() {
                        let a0 = if a < i {
                            a
                        } else {
                            a + 1
                        };
                        assert(before[a0] == after[a]);
                        assert(before[a0].0 != before[i as int].0);
                    }
                }
                assert(pairs_map(after) =~= target);
            }
        },
        None => {
            pairs.push((key, value));
            assert(pairs.deep_view() =~= before.push((key@, value@)));
            assert(before.push((key@, value@)).drop_last() =~= before);
        },
    }
}

/// Puts every tag of `more` into a set of tags.
pub fn extend_tags(tags: &mut Vec<String>, more: &Vec<String>)
    requires
        old(tags).deep_view().no_duplicates(),
    ensures
        final(tags).deep_view().no_duplicates(),
        final(tags).deep_view().to_set() == old(tags).deep_view().to_set().union(
            more.deep_view().to_set(),
        ),
{
    let ghost start = tags.deep_view().to_set();
    let mut k: usize = 0;
    proof {
        assert(more.deep_view().take(0).to_set() =~= Set::empty());
        assert(start.union(Set::empty()) =~= start);
    }
    while k < more.len()
        invariant
            k <= more.len(),
            tags.deep_view().no_duplicates(),
            tags.deep_view().to_set() == start.union(more.deep_view().take(k as int).to_set()),
        decreases more.len() - k,
    {
        let ghost seen = more.deep_view().take(k as int);
        add_tag(tags, more[k].clone());
        proof {
            let next = more.deep_view().take(k + 1);
            assert(next =~= seen.push(more@[k as int]@));
            assert(next.to_set() =~= seen.to_set().insert(more@[k as int]@)) by {
                assert forall|t: Seq<char>|
                    next.contains(t) <==> seen.contains(t) || t == more@[k as int]@ by {
                    if next.contains(t) {
                        let i = choose|i: int| 0 <= i < next.len() && next[i] == t;
                        if i < seen.len() {
                            assert(seen[i] == t);
                        }
                    }
                    if seen.contains(t) {
                        let i = choose|i: int| 0 <= i < seen.len() && seen[i] == t;
                        assert(next[i] == t);
                    }
                    if t == more@[k as int]@ {
                        assert(next[seen.len() as int] == t);
                    }
                }
            }
            assert(start.union(next.to_set()) =~= start.union(seen.to_set()).insert(
                more@[k as int]@,
            ));
        }
        k += 1;
    }
    proof {
        assert(more.deep_view().take(more.len() as int) =~= more.deep_view());
    }
}

/// Puts every pair of `more` into a map of attributes, in order.
pub fn extend_keyvals(pairs: &mut Vec<(String, String)>, more: &Vec<(String, String)>)
    requires
        unique_keys(old(pairs).deep_view()),
    ensures
        unique_keys(final(pairs).deep_view()),
        pairs_map(final(pairs).deep_view()) == inserted(
            pairs_map(old(pairs).deep_view()),
            more.deep_view(),
        ),
{
    let ghost start = pairs_map(pairs.deep_view());
    let mut k: usize = 0;
    proof {
        assert(more.deep_view().take(0) =~= Seq::empty());
    }
    while k < more.len()
        invariant
            k <= more.len(),
            unique_keys(pairs.deep_view()),
            pairs_map(pairs.deep_view()) == inserted(start, more.deep_view().take(k as int)),
        decreases more.len() - k,
    {
        add_keyval(pairs, more[k].0.clone(), more[k].1.clone());
        proof {
            let next = more.deep_view().take(k + 1);
            assert(next.drop_last() =~= more.deep_view().take(k as int));
            assert(next.last() == more@[k as int].deep_view());
        }
        k += 1;
    }
    proof {
        assert(more.deep_view().take(more.len() as int) =~= more.deep_view());
    }
}

/// The set of the tags of a list.
pub fn tag_set(tags: &Vec<String>) -> (r: Vec<String>)
    ensures
        r.deep_view().no_duplicates(),
        r.deep_view().to_set() == tags.deep_view().to_set(),
{
    let mut set: Vec<String> = Vec::new();
    assert(set.deep_view() =~= Seq::empty());
    assert(set.deep_view().to_set() =~= Set::empty());
    extend_tags(&mut set, tags);
    assert(Set::<Seq<char>>::empty().union(tags.deep_view().to_set()) =~= tags.deep_view().to_set());
    set
}

/// The map of the pairs of a list.
pub fn keyval_map(pairs: &Vec<(String, String)>) -> (r: Vec<(String, String)>)
    ensures
        unique_keys(r.deep_view()),
        pairs_map(r.deep_view()) == pairs_map(pairs.deep_view()),
{
    let mut map: Vec<(String, String)> = Vec::new();
    assert(map.deep_view() =~= Seq::empty());
    extend_keyvals(&mut map, pairs);
    map
}

} // verus!
