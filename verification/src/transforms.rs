use vstd::prelude::*;
use crate::outline::{PartLink, opt_view};
use crate::text::str_eq;

verus! {

/// How many times the editor walks the part list to place parts under
/// their parents.
pub const TRANSFORM_PASSES: usize = 10;

/// The ids of the parts at the positions in `order`.
pub open spec fn ids_of(links: Seq<PartLink>, order: Seq<usize>) -> Seq<Seq<char>> {
    order.map_values(|i: usize| links[i as int].id@)
}

/// Whether a part is placed when a pass meets it: no part with its id is
/// placed yet, and it has no parent or a part with its parent's id is
/// placed.
pub open spec fn ready(p: PartLink, placed: Seq<Seq<char>>) -> bool {
    &&& !placed.contains(p.id@)
    &&& match opt_view(p.parent_part_id) {
        None => true,
        Some(pid) => placed.contains(pid),
    }
}

/// One pass over the parts from position `i` on, placing each part that is
/// ready when met, after those in `order`.
pub open spec fn pass_from(links: Seq<PartLink>, order: Seq<usize>, i: nat) -> Seq<usize>
    decreases links.len() - i,
{
    if i >= links.len() {
        order
    } else {
        let next = if ready(links[i as int], ids_of(links, order)) {
            order.push(i as usize)
        } else {
            order
        };
        pass_from(links, next, i + 1)
    }
}

/// `k` passes over the parts, after those in `order`.
pub open spec fn passes(links: Seq<PartLink>, order: Seq<usize>, k: nat) -> Seq<usize>
    decreases k,
{
    if k == 0 {
        order
    } else {
        passes(links, pass_from(links, order, 0), (k - 1) as nat)
    }
}

/// The positions of the parts in the order in which the editor computes
/// their world transforms: each part after its parent.
pub open spec fn resolution_order(links: Seq<PartLink>) -> Seq<usize> {
    passes(links, Seq::empty(), TRANSFORM_PASSES as nat)
}

fn is_placed(links: &Vec<PartLink>, order: &Vec<usize>, id: &String) -> (r: bool)
    requires
        forall|k: int| 0 <= k < order@.len() ==> order@[k] < links@.len(),
    ensures
        r == ids_of(links@, order@).contains(id@),
{
    let n = order.len();
    for k in 0..n
        invariant
            n == order.len(),
            forall|q: int| 0 <= q < order@.len() ==> order@[q] < links@.len(),
            forall|q: int| 0 <= q < k ==> ids_of(links@, order@)[q] != id@,
    {
        if str_eq(links[order[k]].id.as_str(), id.as_str()) {
            assert(ids_of(links@, order@)[k as int] == id@);
            return true;
        }
    }
    false
}

/// The positions of the parts in the order in which their world transforms
/// are computed: the editor walks the part list a fixed number of times
/// and places each part whose parent is placed (or that has none), once
/// per id. Parts whose parent never gets placed are left out.
pub fn transform_order(links: &Vec<PartLink>) -> (res: Vec<usize>)
    ensures
        res@ == resolution_order(links@),
{
    let mut order: Vec<usize> = Vec::new();
    let n = links.len();
    let mut k: usize = 0;
    while k < TRANSFORM_PASSES
        invariant
            n == links.len(),
            k <= TRANSFORM_PASSES,
            forall|q: int| 0 <= q < order@.len() ==> order@[q] < n,
            passes(links@, order@, (TRANSFORM_PASSES - k) as nat) == resolution_order(links@),
        decreases TRANSFORM_PASSES - k,
    {
        let ghost start = order@;
        for i in 0..n
            invariant
                n == links.len(),
                forall|q: int| 0 <= q < order@.len() ==> order@[q] < n,
                pass_from(links@, order@, i as nat) == pass_from(links@, start, 0),
        {
            let p = &links[i];
            let mut place = !is_placed(links, &order, &p.id);
            if place {
                match &p.parent_part_id {
                    None => {},
                    Some(pid) => {
                        place = is_placed(links, &order, pid);
                    },
                }
            }
            if place {
                order.push(i);
            }
        }
        k = k + 1;
    }
    order
}

// ---------------------------------------------------------------------------
// Laws

/// Some part placed before position `k` carries the parent id of the part
/// placed at `k`, where that part has a parent.
pub open spec fn parent_placed_before(links: Seq<PartLink>, order: Seq<usize>, k: int) -> bool {
    match opt_view(links[order[k] as int].parent_part_id) {
        None => true,
        Some(pid) => exists|j: int| 0 <= j < k && #[trigger] links[order[j] as int].id@ == pid,
    }
}

/// Placed parts lie in the list, no id is placed twice, and every placed
/// part with a parent comes after a placed part with its parent's id.
pub open spec fn well_placed(links: Seq<PartLink>, order: Seq<usize>) -> bool {
    &&& forall|k: int| 0 <= k < order.len() ==> order[k] < links.len()
    &&& forall|a: int, b: int|
        0 <= a < b < order.len() ==> links[order[a] as int].id@ != links[order[b] as int].id@
    &&& forall|k: int| 0 <= k < order.len() ==> parent_placed_before(links, order, k)
}

proof fn lemma_push_well_placed(links: Seq<PartLink>, order: Seq<usize>, i: nat)
    requires
        well_placed(links, order),
        i < links.len(),
        i <= usize::MAX,
        ready(links[i as int], ids_of(links, order)),
    ensures
        well_placed(links, order.push(i as usize)),
{
    let o2 = order.push(i as usize);
    let ids = ids_of(links, order);
    assert forall|a: int, b: int| 0 <= a < b < o2.len() implies links[o2[a] as int].id@ != links[
        o2[b] as int].id@ by {
        if b == order.len() {
            assert(ids[a] == links[order[a] as int].id@);
            assert(o2[a] == order[a]);
        } else {
            assert(o2[a] == order[a] && o2[b] == order[b]);
        }
    }
    assert forall|k: int| 0 <= k < o2.len() implies parent_placed_before(links, o2, k) by {
        if k == order.len() {
            match opt_view(links[i as int].parent_part_id) {
                None => {},
                Some(pid) => {
                    let j = choose|j: int| 0 <= j < ids.len() && ids[j] == pid;
                    assert(o2[j] == order[j]);
                    assert(links[o2[j] as int].id@ == pid);
                },
            }
        } else {
            assert(o2[k] == order[k]);
            match opt_view(links[order[k] as int].parent_part_id) {
                None => {},
                Some(pid) => {
                    assert(parent_placed_before(links, order, k));
                    let j = choose|j: int| 0 <= j < k && #[trigger] links[order[j] as int].id@ == pid;
                    assert(o2[j] == order[j]);
                    assert(links[o2[j] as int].id@ == pid);
                },
            }
        }
    }
}

proof fn lemma_pass_well_placed(links: Seq<PartLink>, order: Seq<usize>, i: nat)
    requires
        well_placed(links, order),
        links.len() <= usize::MAX,
    ensures
        well_placed(links, pass_from(links, order, i)),
    decreases links.len() - i,
{
    if i < links.len() {
        if ready(links[i as int], ids_of(links, order)) {
            lemma_push_well_placed(links, order, i);
            lemma_pass_well_placed(links, order.push(i as usize), i + 1);
        } else {
            lemma_pass_well_placed(links, order, i + 1);
        }
    }
}

proof fn lemma_passes_well_placed(links: Seq<PartLink>, order: Seq<usize>, k: nat)
    requires
        well_placed(links, order),
        links.len() <= usize::MAX,
    ensures
        well_placed(links, passes(links, order, k)),
    decreases k,
{
    if k > 0 {
        lemma_pass_well_placed(links, order, 0);
        lemma_passes_well_placed(links, pass_from(links, order, 0), (k - 1) as nat);
    }
}

/// The order in which world transforms are computed places every part at
/// most once per id and only after a part with its parent's id, so each
/// part's transform is computed from its parent's.
pub proof fn law_parents_first(links: Seq<PartLink>)
    requires
        links.len() <= usize::MAX,
    ensures
        well_placed(links, resolution_order(links)),
{
    lemma_passes_well_placed(links, Seq::empty(), TRANSFORM_PASSES as nat);
}

proof fn lemma_pass_extends(links: Seq<PartLink>, order: Seq<usize>, i: nat)
    ensures
        pass_from(links, order, i).len() >= order.len(),
        forall|k: int| 0 <= k < order.len() ==> #[trigger] pass_from(links, order, i)[k] == order[k],
    decreases links.len() - i,
{
    if i < links.len() {
        let next = if ready(links[i as int], ids_of(links, order)) {
            order.push(i as usize)
        } else {
            order
        };
        lemma_pass_extends(links, next, i + 1);
        assert forall|k: int| 0 <= k < order.len() implies #[trigger] pass_from(links, order, i)[k]
            == order[k] by {
            assert(next[k] == order[k]);
            assert(pass_from(links, next, i + 1)[k] == next[k]);
        }
    }
}

proof fn lemma_passes_extend(links: Seq<PartLink>, order: Seq<usize>, k: nat)
    ensures
        passes(links, order, k).len() >= order.len(),
        forall|q: int| 0 <= q < order.len() ==> #[trigger] passes(links, order, k)[q] == order[q],
    decreases k,
{
    if k > 0 {
        let first = pass_from(links, order, 0);
        lemma_pass_extends(links, order, 0);
        lemma_passes_extend(links, first, (k - 1) as nat);
        assert forall|q: int| 0 <= q < order.len() implies #[trigger] passes(links, order, k)[q]
            == order[q] by {
            assert(passes(links, first, (k - 1) as nat)[q] == first[q]);
            assert(first[q] == order[q]);
        }
    }
}

proof fn lemma_placed_stays(links: Seq<PartLink>, small: Seq<usize>, big: Seq<usize>, id: Seq<char>)
    requires
        big.len() >= small.len(),
        forall|k: int| 0 <= k < small.len() ==> #[trigger] big[k] == small[k],
        ids_of(links, small).contains(id),
    ensures
        ids_of(links, big).contains(id),
{
    let k = choose|k: int| 0 <= k < ids_of(links, small).len() && ids_of(links, small)[k] == id;
    assert(big[k] == small[k]);
    assert(ids_of(links, big)[k] == id);
}

proof fn lemma_pass_covers_root(links: Seq<PartLink>, order: Seq<usize>, i: nat, j: nat)
    requires
        i <= j < links.len(),
        links.len() <= usize::MAX,
        links[j as int].parent_part_id is None,
    ensures
        ids_of(links, pass_from(links, order, i)).contains(links[j as int].id@),
    decreases j - i,
{
    let next = if ready(links[i as int], ids_of(links, order)) {
        order.push(i as usize)
    } else {
        order
    };
    assert(pass_from(links, order, i) == pass_from(links, next, i + 1));
    if i == j {
        let id = links[j as int].id@;
        if ready(links[i as int], ids_of(links, order)) {
            assert(ids_of(links, next)[order.len() as int] == id);
        } else {
            assert(ids_of(links, order).contains(id));
            assert(ids_of(links, next).contains(id));
        }
        lemma_pass_extends(links, next, i + 1);
        lemma_placed_stays(links, next, pass_from(links, next, i + 1), id);
    } else {
        lemma_pass_covers_root(links, next, i + 1, j);
    }
}

/// Every part without a parent has its id placed: some part with that id
/// gets a world transform.
pub proof fn law_roots_placed(links: Seq<PartLink>, j: int)
    requires
        0 <= j < links.len(),
        links.len() <= usize::MAX,
        links[j].parent_part_id is None,
    ensures
        ids_of(links, resolution_order(links)).contains(links[j].id@),
{
    let first = pass_from(links, Seq::empty(), 0);
    lemma_pass_covers_root(links, Seq::empty(), 0, j as nat);
    lemma_passes_extend(links, first, (TRANSFORM_PASSES - 1) as nat);
    assert(resolution_order(links) == passes(links, first, (TRANSFORM_PASSES - 1) as nat));
    lemma_placed_stays(links, first, resolution_order(links), links[j].id@);
}

} // verus!
