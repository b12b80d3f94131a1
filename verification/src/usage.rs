//! Ability usage: the casts of one player grouped by ability.
//!
//! The cast rows come ordered by ability id and then by time; each ability
//! gets one group holding the positions of its rows, in order, so that its
//! name is the name of its first row, its cast count the number of rows, and
//! its first and last casts those of its first and last rows.

use vstd::prelude::*;
use std::collections::BTreeMap;
use vstd::std_specs::btree::{increasing_seq, spec_btree_map_iter};
use vstd::std_specs::iter::IteratorSpec;
use vstd::std_specs::cmp::OrdSpec;

verus! {

broadcast use vstd::std_specs::btree::group_btree_axioms, vstd::laws_cmp::group_laws_cmp;

/// The casts of one ability: the positions of its rows in the query result.
pub struct CastGroup {
    pub ability_id: i64,
    pub rows: Vec<usize>,
}

/// Row `j` is one of the rows of group `g`.
pub open spec fn in_group(groups: Seq<CastGroup>, g: int, j: int) -> bool {
    exists|k: int| 0 <= k < groups[g].rows@.len() && groups[g].rows@[k] == j
}

/// Row `j` is in some group.
pub open spec fn covered(groups: Seq<CastGroup>, j: int) -> bool {
    exists|g: int| 0 <= g < groups.len() && #[trigger] in_group(groups, g, j)
}

/// `groups` splits the first `n` rows by ability: one group per ability id,
/// by ascending id, each holding the positions of that ability's rows among
/// the first `n`, in ascending order.
pub open spec fn groups_rows(ids: Seq<i64>, groups: Seq<CastGroup>, n: int) -> bool {
    &&& forall|g: int| 0 <= g < groups.len() ==> (#[trigger] groups[g]).rows@.len() > 0
    &&& forall|g: int, h: int|
        0 <= g < h < groups.len() ==> (#[trigger] groups[g]).ability_id < (#[trigger] groups[h]).ability_id
    &&& forall|g: int, k: int|
        0 <= g < groups.len() && 0 <= k < groups[g].rows@.len() ==> {
            &&& 0 <= #[trigger] groups[g].rows@[k] < n
            &&& ids[groups[g].rows@[k] as int] == groups[g].ability_id
        }
    &&& forall|g: int, k: int, l: int|
        0 <= g < groups.len() && 0 <= k < l < groups[g].rows@.len() ==> #[trigger] groups[g].rows@[k]
            < #[trigger] groups[g].rows@[l]
    &&& forall|j: int| 0 <= j < n ==> #[trigger] covered(groups, j)
}

/// The positions among the first `n` rows of the rows of ability `id`, in
/// order.
pub open spec fn rows_of(ids: Seq<i64>, id: i64, n: int) -> Seq<usize>
    decreases n,
{
    if n <= 0 {
        Seq::empty()
    } else if ids[n - 1] == id {
        rows_of(ids, id, n - 1).push((n - 1) as usize)
    } else {
        rows_of(ids, id, n - 1)
    }
}

proof fn lemma_rows_of(ids: Seq<i64>, id: i64, n: int)
    requires
        0 <= n <= ids.len(),
        n <= usize::MAX,
    ensures
        forall|k: int| 0 <= k < rows_of(ids, id, n).len() ==> 0 <= #[trigger] rows_of(ids, id, n)[k] < n
            && ids[rows_of(ids, id, n)[k] as int] == id,
        forall|k: int, l: int|
            0 <= k < l < rows_of(ids, id, n).len() ==> #[trigger] rows_of(ids, id, n)[k] < #[trigger] rows_of(
                ids,
                id,
                n,
            )[l],
        forall|j: int| 0 <= j < n && ids[j] == id ==> #[trigger] rows_of(ids, id, n).contains(j as usize),
    decreases n,
{
    if n > 0 {
        lemma_rows_of(ids, id, n - 1);
        let r = rows_of(ids, id, n - 1);
        if ids[n - 1] == id {
            let r2 = r.push((n - 1) as usize);
            assert forall|j: int| 0 <= j < n && ids[j] == id implies #[trigger] r2.contains(j as usize) by {
                if j < n - 1 {
                    assert(r.contains(j as usize));
                    let k = choose|k: int| 0 <= k < r.len() && r[k] == j as usize;
                    assert(r2[k] == j as usize);
                } else {
                    assert(r2[r.len() as int] == j as usize);
                }
            }
        } else {
            assert forall|j: int| 0 <= j < n && ids[j] == id implies #[trigger] r.contains(j as usize) by {
                assert(j < n - 1);
            }
        }
    }
}

/// Group the rows of a usage query by ability id.
///
/// `ability_ids[i]` is the ability of row `i`. The rows are collected in a
/// `BTreeMap` keyed by ability id, so the abilities come out by ascending id,
/// each with its rows in the order of the query result.
pub fn group_casts_by_ability(ability_ids: &[i64]) -> (groups: Vec<CastGroup>)
    ensures
        groups_rows(ability_ids@, groups@, ability_ids@.len() as int),
{
    let n = ability_ids.len();
    let mut by_ability: BTreeMap<i64, Vec<usize>> = BTreeMap::new();
    let mut i: usize = 0;
    while i < n
        invariant
            n == ability_ids@.len(),
            i <= n,
            forall|id: i64| #[trigger]
                by_ability@.contains_key(id) <==> ability_ids@.take(i as int).contains(id),
            forall|id: i64| #[trigger]
                by_ability@.contains_key(id) ==> by_ability@[id]@ == rows_of(ability_ids@, id, i as int),
        decreases n - i,
    {
        let id = ability_ids[i];
        let mut rows = match by_ability.remove(&id) {
            Some(r) => r,
            None => Vec::new(),
        };
        proof {
            if !ability_ids@.take(i as int).contains(id) {
                assert forall|j: int| 0 <= j < i implies ability_ids@[j] != id by {
                    assert(ability_ids@.take(i as int)[j] == ability_ids@[j]);
                }
                lemma_rows_of(ability_ids@, id, i as int);
                assert(rows_of(ability_ids@, id, i as int) =~= Seq::<usize>::empty()) by {
                    if rows_of(ability_ids@, id, i as int).len() > 0 {
                        assert(ability_ids@[rows_of(ability_ids@, id, i as int)[0] as int] == id);
                    }
                }
            }
        }
        rows.push(i);
        by_ability.insert(id, rows);
        proof {
            assert(ability_ids@.take(i + 1) =~= ability_ids@.take(i as int).push(id));
            assert forall|x: i64| #[trigger]
                by_ability@.contains_key(x) <==> ability_ids@.take(i + 1).contains(x) by {
                if ability_ids@.take(i as int).contains(x) {
                    let k = choose|k: int| 0 <= k < i && #[trigger] ability_ids@.take(i as int)[k] == x;
                    assert(ability_ids@.take(i + 1)[k] == x);
                }
                if ability_ids@.take(i + 1).contains(x) && x != id {
                    let k = choose|k: int| 0 <= k < i + 1 && #[trigger] ability_ids@.take(i + 1)[k] == x;
                    assert(ability_ids@.take(i as int)[k] == x);
                }
                assert(ability_ids@.take(i + 1)[i as int] == id);
            }
        }
        i = i + 1;
    }
    assert(ability_ids@.take(n as int) =~= ability_ids@);
    let ghost table = by_ability@;
    let ghost items = spec_btree_map_iter(&by_ability).remaining();
    let mut groups: Vec<CastGroup> = Vec::new();
    for entry in it: by_ability.iter()
        invariant
            it.seq() == items,
            increasing_seq(items.map_values(|kv: (&i64, &Vec<usize>)| *kv.0)),
            groups@.len() == it.index(),
            forall|q: int|
                0 <= q < it.index() ==> (#[trigger] groups@[q]).ability_id == *it.seq()[q].0
                    && groups@[q].rows@ == it.seq()[q].1@,
    {
        let (id, rows) = entry;
        groups.push(CastGroup { ability_id: *id, rows: rows.clone() });
    }
    proof {
        lemma_increasing_keys(items);
        lemma_groups_from_table(ability_ids@, table, items, groups@);
    }
    groups
}

/// Keys that the map yields in increasing order are increasing integers.
proof fn lemma_increasing_keys(items: Seq<(&i64, &Vec<usize>)>)
    requires
        increasing_seq(items.map_values(|kv: (&i64, &Vec<usize>)| *kv.0)),
    ensures
        forall|i: int, j: int| 0 <= i < j < items.len() ==> *(#[trigger] items[i]).0 < *(#[trigger] items[j]).0,
{
    let keys = items.map_values(|kv: (&i64, &Vec<usize>)| *kv.0);
    assert forall|i: int, j: int| 0 <= i < j < items.len() implies *(#[trigger] items[i]).0 < *(
    #[trigger] items[j]).0 by {
        assert(keys[i] == *items[i].0 && keys[j] == *items[j].0);
        assert(keys[i].cmp_spec(&keys[j]) is Less);
    }
}

proof fn lemma_groups_from_table(
    ids: Seq<i64>,
    table: Map<i64, Vec<usize>>,
    items: Seq<(&i64, &Vec<usize>)>,
    groups: Seq<CastGroup>,
)
    requires
        ids.len() <= usize::MAX,
        forall|id: i64| #[trigger] table.contains_key(id) <==> ids.contains(id),
        forall|id: i64| #[trigger] table.contains_key(id) ==> table[id]@ == rows_of(ids, id, ids.len() as int),
        forall|i: int| 0 <= i < items.len() ==> table.contains_key(*(#[trigger] items[i]).0) && table[*items[i].0]
            == *items[i].1,
        forall|k: i64| #[trigger] table.contains_key(k) ==> items.contains((&k, &table[k])),
        forall|i: int, j: int| 0 <= i < j < items.len() ==> *(#[trigger] items[i]).0 < *(#[trigger] items[j]).0,
        groups.len() == items.len(),
        forall|q: int|
            0 <= q < groups.len() ==> (#[trigger] groups[q]).ability_id == *items[q].0 && groups[q].rows@
                == items[q].1@,
    ensures
        groups_rows(ids, groups, ids.len() as int),
{
    let n = ids.len() as int;
    assert forall|g: int| 0 <= g < groups.len() implies (#[trigger] groups[g]).rows@.len() > 0 by {
        let id = groups[g].ability_id;
        assert(table.contains_key(*items[g].0));
        let j = choose|j: int| 0 <= j < ids.len() && ids[j] == id;
        lemma_rows_of(ids, id, n);
        assert(rows_of(ids, id, n).contains(j as usize));
    }
    assert forall|g: int, h: int| 0 <= g < h < groups.len() implies (#[trigger] groups[g]).ability_id < (
    #[trigger] groups[h]).ability_id by {
        assert(*items[g].0 < *items[h].0);
    }
    assert forall|g: int, k: int| 0 <= g < groups.len() && 0 <= k < groups[g].rows@.len() implies {
        &&& 0 <= #[trigger] groups[g].rows@[k] < n
        &&& ids[groups[g].rows@[k] as int] == groups[g].ability_id
    } by {
        assert(table.contains_key(*items[g].0));
        lemma_rows_of(ids, groups[g].ability_id, n);
    }
    assert forall|g: int, k: int, l: int|
        0 <= g < groups.len() && 0 <= k < l < groups[g].rows@.len() implies #[trigger] groups[g].rows@[k]
        < #[trigger] groups[g].rows@[l] by {
        assert(table.contains_key(*items[g].0));
        lemma_rows_of(ids, groups[g].ability_id, n);
    }
    assert forall|j: int| 0 <= j < n implies #[trigger] covered(groups, j) by {
        let id = ids[j];
        assert(ids.contains(id));
        assert(table.contains_key(id));
        assert(items.contains((&id, &table[id])));
        let q = choose|q: int| 0 <= q < items.len() && items[q] == (&id, &table[id]);
        lemma_rows_of(ids, id, n);
        assert(rows_of(ids, id, n).contains(j as usize));
        let k = choose|k: int| 0 <= k < rows_of(ids, id, n).len() && rows_of(ids, id, n)[k] == j as usize;
        assert(groups[q].rows@[k] == j);
        assert(in_group(groups, q, j));
    }
}

} // verus!
