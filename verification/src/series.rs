//! Post-processing of chart series: buckets without a sample show the last
//! known value, so that gaps do not read as drops to zero; highlighted rows
//! are put in lanes by key, each key keeping the lane of its first row.

use vstd::prelude::*;

verus! {

/// The last sample among `samples`, or `initial` when there is none.
pub open spec fn last_known<T>(samples: Seq<Option<T>>, initial: T) -> T
    decreases samples.len(),
{
    if samples.len() == 0 {
        initial
    } else {
        match samples.last() {
            Some(v) => v,
            None => last_known(samples.drop_last(), initial),
        }
    }
}

/// Forward-fill: one value per bucket, the bucket's own sample when it has
/// one, otherwise the last sample before it, otherwise `initial`.
pub fn forward_fill<T: Copy>(samples: &[Option<T>], initial: T) -> (filled: Vec<T>)
    ensures
        filled@.len() == samples@.len(),
        forall|i: int|
            0 <= i < samples@.len() ==> #[trigger] filled@[i] == last_known(samples@.take(i + 1), initial),
{
    let n = samples.len();
    let mut filled: Vec<T> = Vec::new();
    let mut last = initial;
    let mut i: usize = 0;
    while i < n
        invariant
            n == samples@.len(),
            i <= n,
            filled@.len() == i,
            last == last_known(samples@.take(i as int), initial),
            forall|k: int| 0 <= k < i ==> #[trigger] filled@[k] == last_known(samples@.take(k + 1), initial),
        decreases n - i,
    {
        assert(samples@.take(i + 1).drop_last() =~= samples@.take(i as int));
        if let Some(v) = samples[i] {
            last = v;
        }
        filled.push(last);
        i = i + 1;
    }
    filled
}

/// A bucket with a sample shows that sample; a bucket without one shows what
/// the bucket before it shows (the initial value for the first bucket).
pub proof fn law_gaps_repeat_the_last_value<T>(samples: Seq<Option<T>>, initial: T, i: int)
    requires
        0 <= i < samples.len(),
    ensures
        samples[i] matches Some(v) ==> last_known(samples.take(i + 1), initial) == v,
        samples[i] is None && i == 0 ==> last_known(samples.take(i + 1), initial) == initial,
        samples[i] is None && i > 0 ==> last_known(samples.take(i + 1), initial) == last_known(
            samples.take(i),
            initial,
        ),
{
    assert(samples.take(i + 1).drop_last() =~= samples.take(i));
    assert(samples.take(i + 1).last() == samples[i]);
    if i == 0 {
        assert(samples.take(0) =~= Seq::<Option<T>>::empty());
        assert(last_known(samples.take(0), initial) == initial);
    }
}

/// The rows of one key: their positions in the input, in order.
pub struct KeyRows {
    pub key: i64,
    pub rows: Vec<usize>,
}

/// Row `j` is one of the rows of group `g`.
pub open spec fn holds_row(groups: Seq<KeyRows>, g: int, j: int) -> bool {
    exists|k: int| 0 <= k < groups[g].rows@.len() && groups[g].rows@[k] == j
}

/// Row `j` is in some group.
pub open spec fn row_placed(groups: Seq<KeyRows>, j: int) -> bool {
    exists|g: int| 0 <= g < groups.len() && #[trigger] holds_row(groups, g, j)
}

/// `groups` splits the first `n` rows by key: one group per key, in the
/// order in which the keys first occur, each holding the positions of that
/// key's rows among the first `n`, in ascending order.
pub open spec fn grouped_in_first_order(keys: Seq<i64>, groups: Seq<KeyRows>, n: int) -> bool {
    &&& forall|g: int| 0 <= g < groups.len() ==> (#[trigger] groups[g]).rows@.len() > 0
    &&& forall|g: int, h: int|
        0 <= g < h < groups.len() ==> (#[trigger] groups[g]).key != (#[trigger] groups[h]).key
            && groups[g].rows@[0] < groups[h].rows@[0]
    &&& forall|g: int, k: int|
        0 <= g < groups.len() && 0 <= k < groups[g].rows@.len() ==> {
            &&& 0 <= #[trigger] groups[g].rows@[k] < n
            &&& keys[groups[g].rows@[k] as int] == groups[g].key
        }
    &&& forall|g: int, k: int, l: int|
        0 <= g < groups.len() && 0 <= k < l < groups[g].rows@.len() ==> #[trigger] groups[g].rows@[k]
            < #[trigger] groups[g].rows@[l]
    &&& forall|j: int| 0 <= j < n ==> #[trigger] row_placed(groups, j)
}

/// Group rows by key, the groups in the order in which their keys first
/// occur (so that each key keeps its lane as more rows arrive).
pub fn group_in_first_order(keys: &[i64]) -> (groups: Vec<KeyRows>)
    ensures
        grouped_in_first_order(keys@, groups@, keys@.len() as int),
{
    let n = keys.len();
    let mut groups: Vec<KeyRows> = Vec::new();
    let mut i: usize = 0;
    while i < n
        invariant
            n == keys@.len(),
            i <= n,
            grouped_in_first_order(keys@, groups@, i as int),
        decreases n - i,
    {
        let key = keys[i];
        let m = groups.len();
        let mut p: usize = 0;
        while p < m && groups[p].key != key
            invariant
                m == groups@.len(),
                p <= m,
                forall|g: int| 0 <= g < p ==> (#[trigger] groups@[g]).key != key,
            decreases m - p,
        {
            p = p + 1;
        }
        let ghost before = groups@;
        if p < m {
            let mut group = KeyRows { key, rows: Vec::new() };
            std::mem::swap(&mut group, &mut groups[p]);
            group.rows.push(i);
            groups.set(p, group);
            proof {
                lemma_add_to_group(keys@, before, groups@, p as int, i);
            }
        } else {
            let mut rows: Vec<usize> = Vec::new();
            rows.push(i);
            groups.push(KeyRows { key, rows });
            proof {
                lemma_open_group(keys@, before, groups@, i);
            }
        }
        i = i + 1;
    }
    groups
}

proof fn lemma_add_to_group(keys: Seq<i64>, before: Seq<KeyRows>, after: Seq<KeyRows>, p: int, i: usize)
    requires
        0 <= i < keys.len(),
        0 <= p < before.len(),
        before[p].key == keys[i as int],
        grouped_in_first_order(keys, before, i as int),
        after.len() == before.len(),
        after[p].key == before[p].key,
        after[p].rows@ == before[p].rows@.push(i),
        forall|g: int| 0 <= g < after.len() && g != p ==> after[g] == before[g],
    ensures
        grouped_in_first_order(keys, after, i + 1),
{
    assert forall|g: int| 0 <= g < after.len() implies (#[trigger] after[g]).rows@.len() > 0 by {
        if g != p {
            assert(before[g].rows@.len() > 0);
        }
    }
    assert forall|g: int, h: int| 0 <= g < h < after.len() implies (#[trigger] after[g]).key != (
    #[trigger] after[h]).key && after[g].rows@[0] < after[h].rows@[0] by {
        assert(before[g].key != before[h].key && before[g].rows@[0] < before[h].rows@[0]);
        assert(after[g].rows@[0] == before[g].rows@[0]);
        assert(after[h].rows@[0] == before[h].rows@[0]);
    }
    assert forall|g: int, k: int| 0 <= g < after.len() && 0 <= k < after[g].rows@.len() implies {
        &&& 0 <= #[trigger] after[g].rows@[k] < i + 1
        &&& keys[after[g].rows@[k] as int] == after[g].key
    } by {
        if g != p || k < before[p].rows@.len() {
            assert(after[g].rows@[k] == before[g].rows@[k]);
        }
    }
    assert forall|g: int, k: int, l: int|
        0 <= g < after.len() && 0 <= k < l < after[g].rows@.len() implies #[trigger] after[g].rows@[k]
        < #[trigger] after[g].rows@[l] by {
        assert(after[g].rows@[k] == before[g].rows@[k]);
        if g != p || l < before[p].rows@.len() {
            assert(after[g].rows@[l] == before[g].rows@[l]);
        }
    }
    assert forall|j: int| 0 <= j < i + 1 implies #[trigger] row_placed(after, j) by {
        if j == i {
            assert(after[p].rows@[before[p].rows@.len() as int] == i);
            assert(holds_row(after, p, j));
        } else {
            assert(row_placed(before, j));
            let g = choose|g: int| 0 <= g < before.len() && #[trigger] holds_row(before, g, j);
            let k = choose|k: int| 0 <= k < before[g].rows@.len() && before[g].rows@[k] == j;
            assert(after[g].rows@[k] == j);
            assert(holds_row(after, g, j));
        }
    }
}

proof fn lemma_open_group(keys: Seq<i64>, before: Seq<KeyRows>, after: Seq<KeyRows>, i: usize)
    requires
        0 <= i < keys.len(),
        forall|g: int| 0 <= g < before.len() ==> (#[trigger] before[g]).key != keys[i as int],
        grouped_in_first_order(keys, before, i as int),
        after.len() == before.len() + 1,
        forall|g: int| 0 <= g < before.len() ==> after[g] == before[g],
        after[before.len() as int].key == keys[i as int],
        after[before.len() as int].rows@ == seq![i],
    ensures
        grouped_in_first_order(keys, after, i + 1),
{
    let last = before.len() as int;
    assert forall|g: int| 0 <= g < after.len() implies (#[trigger] after[g]).rows@.len() > 0 by {
        if g < last {
            assert(before[g].rows@.len() > 0);
        }
    }
    assert forall|g: int, h: int| 0 <= g < h < after.len() implies (#[trigger] after[g]).key != (
    #[trigger] after[h]).key && after[g].rows@[0] < after[h].rows@[0] by {
        if h < last {
            assert(before[g].key != before[h].key && before[g].rows@[0] < before[h].rows@[0]);
        } else {
            assert(after[g] == before[g]);
            assert(before[g].rows@.len() > 0);
            assert(before[g].rows@[0] < i);
        }
    }
    assert forall|g: int, k: int| 0 <= g < after.len() && 0 <= k < after[g].rows@.len() implies {
        &&& 0 <= #[trigger] after[g].rows@[k] < i + 1
        &&& keys[after[g].rows@[k] as int] == after[g].key
    } by {
        if g < last {
            assert(after[g] == before[g]);
        }
    }
    assert forall|g: int, k: int, l: int|
        0 <= g < after.len() && 0 <= k < l < after[g].rows@.len() implies #[trigger] after[g].rows@[k]
        < #[trigger] after[g].rows@[l] by {
        if g < last {
            assert(after[g] == before[g]);
        }
    }
    assert forall|j: int| 0 <= j < i + 1 implies #[trigger] row_placed(after, j) by {
        if j == i {
            assert(after[last].rows@[0] == i);
            assert(holds_row(after, last, j));
        } else {
            assert(row_placed(before, j));
            let g = choose|g: int| 0 <= g < before.len() && #[trigger] holds_row(before, g, j);
            let k = choose|k: int| 0 <= k < before[g].rows@.len() && before[g].rows@[k] == j;
            assert(after[g] == before[g]);
            assert(after[g].rows@[k] == j);
            assert(holds_row(after, g, j));
        }
    }
}

} // verus!
