//! The batch orchestrator's decision logic. Workers (which read and scan the
//! files concurrently) live outside the library; what is decided here is how
//! a round's results merge into the path-keyed result map and which import
//! paths the next discovery round must visit. The map is an association list
//! whose keys stay pairwise distinct.

use vstd::prelude::*;

use crate::meta::CssMeta;
use crate::text::str_eq_str;

verus! {

/// The keys of an association list, in order.
pub open spec fn entry_keys<V>(m: Seq<(String, V)>) -> Seq<Seq<char>> {
    m.map_values(|e: (String, V)| e.0@)
}

/// Whether `k` is a key of the map.
pub open spec fn map_has_key<V>(m: Seq<(String, V)>, k: Seq<char>) -> bool {
    exists|j: int| 0 <= j < m.len() && m[j].0@ == k
}

/// The keys are pairwise distinct.
pub open spec fn distinct_keys<V>(m: Seq<(String, V)>) -> bool {
    forall|i: int, j: int| 0 <= i < j < m.len() ==> m[i].0@ != m[j].0@
}

/// The value at key `k`: the first entry's value, which under distinct keys
/// is the only one.
pub open spec fn lookup<V>(m: Seq<(String, V)>, k: Seq<char>) -> Option<V>
    decreases m.len(),
{
    if m.len() == 0 {
        None
    } else if m[0].0@ == k {
        Some(m[0].1)
    } else {
        lookup(m.drop_first(), k)
    }
}

/// The index of the first entry with key `k`, or -1 when there is none.
pub open spec fn index_of_key<V>(m: Seq<(String, V)>, k: Seq<char>) -> int
    decreases m.len(),
{
    if m.len() == 0 {
        -1
    } else if m[0].0@ == k {
        0
    } else {
        let r = index_of_key(m.drop_first(), k);
        if r < 0 {
            -1
        } else {
            r + 1
        }
    }
}

pub proof fn lemma_index_of_key<V>(m: Seq<(String, V)>, k: Seq<char>)
    ensures
        index_of_key(m, k) >= 0 ==> 0 <= index_of_key(m, k) < m.len() && m[index_of_key(m, k)].0@
            == k,
        index_of_key(m, k) < 0 ==> forall|j: int| 0 <= j < m.len() ==> m[j].0@ != k,
        (index_of_key(m, k) >= 0) == map_has_key(m, k),
    decreases m.len(),
{
    if m.len() > 0 && m[0].0@ != k {
        lemma_index_of_key(m.drop_first(), k);
        let r = index_of_key(m.drop_first(), k);
        if r >= 0 {
            assert(m[r + 1] == m.drop_first()[r]);
        } else {
            assert forall|j: int| 0 <= j < m.len() implies m[j].0@ != k by {
                if j > 0 {
                    assert(m.drop_first()[j - 1] == m[j]);
                }
            }
        }
    }
    if index_of_key(m, k) >= 0 {
        assert(map_has_key(m, k));
    }
}

/// Inserting an entry: an existing entry with the same key is removed first,
/// and the new entry goes to the end.
pub open spec fn spec_insert<V>(m: Seq<(String, V)>, e: (String, V)) -> Seq<(String, V)> {
    let i = index_of_key(m, e.0@);
    if i >= 0 {
        m.remove(i).push(e)
    } else {
        m.push(e)
    }
}

pub proof fn lemma_spec_insert_distinct<V>(m: Seq<(String, V)>, e: (String, V))
    requires
        distinct_keys(m),
    ensures
        distinct_keys(spec_insert(m, e)),
        map_has_key(spec_insert(m, e), e.0@),
        forall|k: Seq<char>|
            k != e.0@ ==> map_has_key(spec_insert(m, e), k) == map_has_key(m, k),
{
    lemma_index_of_key(m, e.0@);
    let i = index_of_key(m, e.0@);
    if i >= 0 {
        let m2 = m.remove(i);
        m.remove_ensures(i);
        assert forall|a: int, b: int| 0 <= a < b < m2.len() + 1 implies (m2.push(e))[a].0@ != (
        m2.push(e))[b].0@ by {
            if b < m2.len() {
                assert(m2[a] == (if a < i {
                    m[a]
                } else {
                    m[a + 1]
                }));
                assert(m2[b] == (if b < i {
                    m[b]
                } else {
                    m[b + 1]
                }));
            } else {
                assert((m2.push(e))[b] == e);
                assert(m2[a] == (if a < i {
                    m[a]
                } else {
                    m[a + 1]
                }));
            }
        }
        assert(map_has_key(m2.push(e), e.0@)) by {
            assert((m2.push(e))[m2.len() as int] == e);
        }
        assert forall|k: Seq<char>| k != e.0@ implies map_has_key(spec_insert(m, e), k)
            == map_has_key(m, k) by {
            if map_has_key(m, k) {
                let j = choose|j: int| 0 <= j < m.len() && m[j].0@ == k;
                if j < i {
                    assert(m2[j] == m[j]);
                    assert((m2.push(e))[j] == m2[j]);
                } else {
                    assert(j != i);
                    assert(m2[j - 1] == m[j]);
                    assert((m2.push(e))[j - 1] == m2[j - 1]);
                }
                assert(map_has_key(m2.push(e), k));
            }
            if map_has_key(m2.push(e), k) {
                let j = choose|j: int| 0 <= j < m2.len() + 1 && (m2.push(e))[j].0@ == k;
                assert(j < m2.len());
                assert(m2[j] == (if j < i {
                    m[j]
                } else {
                    m[j + 1]
                }));
                assert(map_has_key(m, k));
            }
        }
    } else {
        assert forall|a: int, b: int| 0 <= a < b < m.len() + 1 implies (m.push(e))[a].0@ != (m.push(
            e,
        ))[b].0@ by {
            if b == m.len() {
                assert((m.push(e))[a] == m[a]);
            }
        }
        assert(map_has_key(m.push(e), e.0@)) by {
            assert((m.push(e))[m.len() as int] == e);
        }
        assert forall|k: Seq<char>| k != e.0@ implies map_has_key(spec_insert(m, e), k)
            == map_has_key(m, k) by {
            if map_has_key(m, k) {
                let j = choose|j: int| 0 <= j < m.len() && m[j].0@ == k;
                assert((m.push(e))[j].0@ == k);
            }
            if map_has_key(m.push(e), k) {
                let j = choose|j: int| 0 <= j < m.len() + 1 && (m.push(e))[j].0@ == k;
                assert(j < m.len());
            }
        }
    }
}

/// Whether `path` is a key of the map.
pub fn map_contains_key<V>(m: &Vec<(String, V)>, path: &str) -> (r: bool)
    ensures
        r == map_has_key(m@, path@),
{
    let mut i: usize = 0;
    while i < m.len()
        invariant
            i <= m@.len(),
            forall|j: int| 0 <= j < i ==> m@[j].0@ != path@,
        decreases m@.len() - i,
    {
        if str_eq_str(m[i].0.as_str(), path) {
            return true;
        }
        i = i + 1;
    }
    false
}

/// The value at key `path`, if any.
pub fn map_get<'a, V>(m: &'a Vec<(String, V)>, path: &str) -> (r: Option<&'a V>)
    ensures
        match r {
            Some(v) => lookup(m@, path@) == Some(*v),
            None => lookup(m@, path@) is None,
        },
{
    let mut i: usize = 0;
    proof {
        assert(m@.skip(0) =~= m@);
    }
    while i < m.len()
        invariant
            i <= m@.len(),
            lookup(m@, path@) == lookup(m@.skip(i as int), path@),
        decreases m@.len() - i,
    {
        proof {
            assert(m@.skip(i as int)[0] == m@[i as int]);
            assert(m@.skip(i as int).drop_first() =~= m@.skip(i + 1));
        }
        if str_eq_str(m[i].0.as_str(), path) {
            return Some(&m[i].1);
        }
        i = i + 1;
    }
    None
}

/// Inserts an entry, replacing the entry with the same key when one exists.
pub fn map_insert<V>(m: &mut Vec<(String, V)>, path: String, value: V)
    requires
        distinct_keys(old(m)@),
    ensures
        final(m)@ == spec_insert(old(m)@, (path, value)),
        distinct_keys(final(m)@),
{
    proof {
        lemma_index_of_key(old(m)@, path@);
        lemma_spec_insert_distinct(old(m)@, (path, value));
    }
    let mut i: usize = 0;
    while i < m.len()
        invariant
            i <= m@.len(),
            m@ == old(m)@,
            distinct_keys(old(m)@),
            forall|j: int| 0 <= j < i ==> m@[j].0@ != path@,
        decreases m@.len() - i,
    {
        if str_eq_str(m[i].0.as_str(), path.as_str()) {
            proof {
                assert(index_of_key(old(m)@, path@) == i as int) by {
                    lemma_index_of_key(old(m)@, path@);
                    let idx = index_of_key(old(m)@, path@);
                    assert(idx >= 0);
                    if idx < i as int {
                        assert(old(m)@[idx].0@ != path@);
                    }
                    if idx > i as int {
                        assert(old(m)@[i as int].0@ != old(m)@[idx].0@);
                    }
                }
            }
            let _old_entry = m.remove(i);
            m.push((path, value));
            return ;
        }
        i = i + 1;
    }
    proof {
        assert(index_of_key(old(m)@, path@) < 0) by {
            lemma_index_of_key(old(m)@, path@);
            let idx = index_of_key(old(m)@, path@);
            if idx >= 0 {
                assert(old(m)@[idx].0@ != path@);
            }
        }
    }
    m.push((path, value));
}

/// The import paths a stylesheet declares, or none.
pub open spec fn meta_imports(meta: CssMeta) -> Seq<String> {
    match meta.imports {
        Some(v) => v@,
        None => Seq::empty(),
    }
}

/// The import paths not yet keys of the map, in order; duplicates among them
/// are kept.
pub open spec fn new_imports(m: Seq<(String, CssMeta)>, imports: Seq<String>) -> Seq<String>
    decreases imports.len(),
{
    if imports.len() == 0 {
        Seq::empty()
    } else {
        (if !map_has_key(m, imports[0]@) {
            seq![imports[0]]
        } else {
            Seq::<String>::empty()
        }) + new_imports(m, imports.drop_first())
    }
}

/// One discovery round: each result, in order, first contributes the imports
/// that are not yet keys of the accumulated map, then is inserted into it.
/// Yields the merged map and the paths for the next round.
pub open spec fn css_round_spec(m: Seq<(String, CssMeta)>, round: Seq<(String, CssMeta)>) -> (
    Seq<(String, CssMeta)>,
    Seq<String>,
)
    decreases round.len(),
{
    if round.len() == 0 {
        (m, Seq::<String>::empty())
    } else {
        let contributed = new_imports(m, meta_imports(round[0].1));
        let m1 = spec_insert(m, round[0]);
        let rest = css_round_spec(m1, round.drop_first());
        (rest.0, contributed + rest.1)
    }
}

/// Merges one round of stylesheet results into the result map and collects
/// the import paths that the next round must visit: those referenced by this
/// round's results and not already keys of the map at the time of the check.
pub fn css_round_update(map: &mut Vec<(String, CssMeta)>, round: Vec<(String, CssMeta)>) -> (next:
    Vec<String>)
    requires
        distinct_keys(old(map)@),
    ensures
        final(map)@ == css_round_spec(old(map)@, round@).0,
        next@ == css_round_spec(old(map)@, round@).1,
        distinct_keys(final(map)@),
{
    let ghost orig_map = map@;
    let ghost orig_round = round@;
    let mut round = round;
    let mut next: Vec<String> = Vec::new();
    proof {
        assert(Seq::<String>::empty() + css_round_spec(map@, round@).1 =~= css_round_spec(
            map@,
            round@,
        ).1);
    }
    while round.len() > 0
        invariant
            distinct_keys(map@),
            css_round_spec(orig_map, orig_round).0 == css_round_spec(map@, round@).0,
            css_round_spec(orig_map, orig_round).1 == next@ + css_round_spec(map@, round@).1,
        decreases round@.len(),
    {
        let ghost round_pre = round@;
        let ghost map_pre = map@;
        let ghost next_pre = next@;
        let (path, meta) = round.remove(0);
        proof {
            assert(round@ =~= round_pre.drop_first());
        }
        match &meta.imports {
            Some(imports) => {
                let mut j: usize = 0;
                proof {
                    assert(imports@.skip(0) =~= imports@);
                    assert(next_pre + new_imports(map@, imports@) =~= next@ + new_imports(
                        map@,
                        imports@.skip(0),
                    ));
                }
                while j < imports.len()
                    invariant
                        j <= imports@.len(),
                        map@ == map_pre,
                        next_pre + new_imports(map@, imports@) == next@ + new_imports(
                            map@,
                            imports@.skip(j as int),
                        ),
                    decreases imports@.len() - j,
                {
                    proof {
                        assert(imports@.skip(j as int)[0] == imports@[j as int]);
                        assert(imports@.skip(j as int).drop_first() =~= imports@.skip(j + 1));
                    }
                    if !map_contains_key(map, imports[j].as_str()) {
                        let path_copy = imports[j].clone();
                        proof {
                            assert(next@.push(path_copy) + new_imports(
                                map@,
                                imports@.skip(j + 1),
                            ) =~= next@ + (seq![imports@[j as int]] + new_imports(
                                map@,
                                imports@.skip(j + 1),
                            )));
                        }
                        next.push(path_copy);
                    } else {
                        proof {
                            assert(next@ + (Seq::<String>::empty() + new_imports(
                                map@,
                                imports@.skip(j + 1),
                            )) =~= next@ + new_imports(map@, imports@.skip(j + 1)));
                        }
                    }
                    j = j + 1;
                }
                proof {
                    assert(imports@.skip(imports@.len() as int) =~= Seq::<String>::empty());
                    assert(next@ + Seq::<String>::empty() =~= next@);
                    assert(next@ =~= next_pre + new_imports(map_pre, meta_imports(meta)));
                }
            },
            None => {
                proof {
                    assert(new_imports(map_pre, meta_imports(meta)) =~= Seq::<String>::empty());
                    assert(next@ =~= next_pre + new_imports(map_pre, meta_imports(meta)));
                }
            },
        }
        proof {
            assert(round_pre[0] == (path, meta));
        }
        map_insert(map, path, meta);
        proof {
            assert(next_pre + (new_imports(map_pre, meta_imports(round_pre[0].1)) + css_round_spec(
                map@,
                round@,
            ).1) =~= next@ + css_round_spec(map@, round@).1);
        }
    }
    proof {
        assert(next@ + Seq::<String>::empty() =~= next@);
    }
    next
}

/// The successful results of a batch merged, in order, into a path-keyed map;
/// failed files contribute nothing.
pub open spec fn collect_spec<V>(
    m: Seq<(String, V)>,
    results: Seq<(String, Option<V>)>,
) -> Seq<(String, V)>
    decreases results.len(),
{
    if results.len() == 0 {
        m
    } else {
        let m1 = match results[0].1 {
            Some(v) => spec_insert(m, (results[0].0, v)),
            None => m,
        };
        collect_spec(m1, results.drop_first())
    }
}

/// Collects the successful results of one batch into a path-keyed map. A file
/// whose analysis failed is absent from the map, never present with an error.
pub fn collect_batch_results<V>(results: Vec<(String, Option<V>)>) -> (map: Vec<(String, V)>)
    ensures
        map@ == collect_spec(Seq::<(String, V)>::empty(), results@),
        distinct_keys(map@),
{
    let ghost orig = results@;
    let mut results = results;
    let mut map: Vec<(String, V)> = Vec::new();
    while results.len() > 0
        invariant
            distinct_keys(map@),
            collect_spec(Seq::<(String, V)>::empty(), orig) == collect_spec(map@, results@),
        decreases results@.len(),
    {
        let ghost results_pre = results@;
        let (path, res) = results.remove(0);
        proof {
            assert(results@ =~= results_pre.drop_first());
            assert(results_pre[0] == (path, res));
        }
        match res {
            Some(v) => {
                map_insert(&mut map, path, v);
            },
            None => {},
        }
    }
    map
}

/// A batch's result map holds a path exactly when some result carries that
/// path with a successful analysis: per-file failures are silent omissions,
/// and no other path ever appears.
pub proof fn lemma_collect_keys<V>(
    m: Seq<(String, V)>,
    results: Seq<(String, Option<V>)>,
    k: Seq<char>,
)
    requires
        distinct_keys(m),
    ensures
        distinct_keys(collect_spec(m, results)),
        map_has_key(collect_spec(m, results), k) <==> (map_has_key(m, k) || exists|j: int|
            0 <= j < results.len() && results[j].0@ == k && results[j].1 is Some),
    decreases results.len(),
{
    if results.len() > 0 {
        let m1 = match results[0].1 {
            Some(v) => spec_insert(m, (results[0].0, v)),
            None => m,
        };
        match results[0].1 {
            Some(v) => {
                lemma_spec_insert_distinct(m, (results[0].0, v));
            },
            None => {},
        }
        lemma_collect_keys(m1, results.drop_first(), k);
        if map_has_key(collect_spec(m, results), k) {
            if !map_has_key(m, k) {
                if map_has_key(m1, k) {
                    assert(results[0].0@ == k && results[0].1 is Some);
                } else {
                    let j = choose|j: int|
                        0 <= j < results.drop_first().len() && results.drop_first()[j].0@ == k
                            && results.drop_first()[j].1 is Some;
                    assert(results[j + 1] == results.drop_first()[j]);
                }
            }
        }
        if exists|j: int| 0 <= j < results.len() && results[j].0@ == k && results[j].1 is Some {
            let j = choose|j: int|
                0 <= j < results.len() && results[j].0@ == k && results[j].1 is Some;
            if j == 0 {
                assert(map_has_key(m1, k));
            } else {
                assert(results.drop_first()[j - 1] == results[j]);
            }
        }
    }
}

/// After a discovery round, the result map holds a path exactly when it held
/// it before or the round produced a result for it.
pub proof fn lemma_css_round_keys(m: Seq<(String, CssMeta)>, round: Seq<(String, CssMeta)>, k: Seq<char>)
    requires
        distinct_keys(m),
    ensures
        distinct_keys(css_round_spec(m, round).0),
        map_has_key(css_round_spec(m, round).0, k) <==> (map_has_key(m, k) || exists|j: int|
            0 <= j < round.len() && round[j].0@ == k),
    decreases round.len(),
{
    if round.len() > 0 {
        let m1 = spec_insert(m, round[0]);
        lemma_spec_insert_distinct(m, round[0]);
        lemma_css_round_keys(m1, round.drop_first(), k);
        if map_has_key(css_round_spec(m, round).0, k) {
            if !map_has_key(m, k) && !(round[0].0@ == k) {
                let j = choose|j: int|
                    0 <= j < round.drop_first().len() && round.drop_first()[j].0@ == k;
                assert(round[j + 1] == round.drop_first()[j]);
            }
        }
        if exists|j: int| 0 <= j < round.len() && round[j].0@ == k {
            let j = choose|j: int| 0 <= j < round.len() && round[j].0@ == k;
            if j == 0 {
                assert(map_has_key(m1, k));
            } else {
                assert(round.drop_first()[j - 1] == round[j]);
            }
        }
    }
}

/// How many results of a batch carry a successful analysis.
pub open spec fn count_successes<V>(results: Seq<(String, Option<V>)>) -> int
    decreases results.len(),
{
    if results.len() == 0 {
        0
    } else {
        (if results[0].1 is Some {
            1int
        } else {
            0int
        }) + count_successes(results.drop_first())
    }
}

/// With pairwise-distinct paths, a batch yields exactly one map entry per
/// successful result: a batch of N distinct paths of which one fails yields
/// N - 1 entries.
pub proof fn lemma_collect_len<V>(m: Seq<(String, V)>, results: Seq<(String, Option<V>)>)
    requires
        distinct_keys(m),
        forall|i: int, j: int|
            0 <= i < j < results.len() ==> results[i].0@ != results[j].0@,
        forall|j: int| 0 <= j < results.len() ==> !map_has_key(m, results[j].0@),
    ensures
        collect_spec(m, results).len() == m.len() + count_successes(results),
    decreases results.len(),
{
    if results.len() > 0 {
        let m1 = match results[0].1 {
            Some(v) => spec_insert(m, (results[0].0, v)),
            None => m,
        };
        match results[0].1 {
            Some(v) => {
                lemma_index_of_key(m, results[0].0@);
                lemma_spec_insert_distinct(m, (results[0].0, v));
                assert(m1 == m.push((results[0].0, v)));
            },
            None => {},
        }
        assert forall|i: int, j: int| 0 <= i < j < results.drop_first().len() implies results.drop_first()[i].0@
            != results.drop_first()[j].0@ by {
            assert(results.drop_first()[i] == results[i + 1]);
            assert(results.drop_first()[j] == results[j + 1]);
        }
        assert forall|j: int| 0 <= j < results.drop_first().len() implies !map_has_key(
            m1,
            results.drop_first()[j].0@,
        ) by {
            assert(results.drop_first()[j] == results[j + 1]);
            match results[0].1 {
                Some(v) => {
                    assert(results[j + 1].0@ != results[0].0@);
                },
                None => {},
            }
        }
        lemma_collect_len(m1, results.drop_first());
    }
}

/// With pairwise-distinct paths none of which is already in the map, one
/// discovery round grows the map by exactly one entry per result: resolving a
/// chain of N distinct, so-far-unseen files yields N entries.
pub proof fn lemma_css_round_len(m: Seq<(String, CssMeta)>, round: Seq<(String, CssMeta)>)
    requires
        distinct_keys(m),
        forall|i: int, j: int| 0 <= i < j < round.len() ==> round[i].0@ != round[j].0@,
        forall|j: int| 0 <= j < round.len() ==> !map_has_key(m, round[j].0@),
    ensures
        css_round_spec(m, round).0.len() == m.len() + round.len(),
    decreases round.len(),
{
    if round.len() > 0 {
        let m1 = spec_insert(m, round[0]);
        lemma_index_of_key(m, round[0].0@);
        lemma_spec_insert_distinct(m, round[0]);
        assert(m1 == m.push(round[0]));
        assert forall|i: int, j: int| 0 <= i < j < round.drop_first().len() implies round.drop_first()[i].0@
            != round.drop_first()[j].0@ by {
            assert(round.drop_first()[i] == round[i + 1]);
            assert(round.drop_first()[j] == round[j + 1]);
        }
        assert forall|j: int| 0 <= j < round.drop_first().len() implies !map_has_key(
            m1,
            round.drop_first()[j].0@,
        ) by {
            assert(round.drop_first()[j] == round[j + 1]);
            assert(round[j + 1].0@ != round[0].0@);
        }
        lemma_css_round_len(m1, round.drop_first());
    }
}

} // verus!
