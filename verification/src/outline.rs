use vstd::prelude::*;

verus! {

/// What the explorer reads of a scene element: its id, its parent's id
/// and how many layers it has.
#[derive(Clone, Debug)]
pub struct OutlineItem {
    pub id: String,
    pub parent_id: Option<String>,
    pub layers_count: usize,
}

/// A node of the explorer's tree: an element and the elements under it.
#[derive(Debug)]
pub struct TreeNode {
    pub idx: usize,
    pub id: String,
    pub layers_count: usize,
    pub children: Vec<TreeNode>,
}

pub open spec fn opt_view(o: Option<String>) -> Option<Seq<char>> {
    match o {
        Some(s) => Some(s@),
        None => None,
    }
}

/// The positions of the items whose parent is `parent`, in order.
pub open spec fn child_indices(items: Seq<OutlineItem>, parent: Option<Seq<char>>) -> Seq<int>
    decreases items.len(),
{
    if items.len() == 0 {
        Seq::empty()
    } else {
        let rest = child_indices(items.drop_last(), parent);
        if opt_view(items.last().parent_id) == parent {
            rest.push(items.len() - 1)
        } else {
            rest
        }
    }
}

/// `nodes` is the tree of `items` under `parent`, followed `depth` levels
/// down: one node per child, in the items' order, each carrying the
/// child's position, id and layer count and, below it, the tree of its own
/// children (cut off where the depth runs out).
pub open spec fn is_tree(
    nodes: Seq<TreeNode>,
    items: Seq<OutlineItem>,
    parent: Option<Seq<char>>,
    depth: nat,
) -> bool
    decreases depth,
{
    let idxs = child_indices(items, parent);
    &&& nodes.len() == idxs.len()
    &&& forall|k: int|
        0 <= k < nodes.len() ==> {
            let n = #[trigger] nodes[k];
            let i = idxs[k];
            &&& n.idx as int == i
            &&& n.id@ == items[i].id@
            &&& n.layers_count == items[i].layers_count
            &&& if depth == 0 {
                n.children@.len() == 0
            } else {
                is_tree(n.children@, items, Some(items[i].id@), (depth - 1) as nat)
            }
        }
}

proof fn lemma_child_indices(items: Seq<OutlineItem>, parent: Option<Seq<char>>, k: int)
    requires
        0 <= k < items.len(),
    ensures
        child_indices(items.take(k + 1), parent) == if opt_view(items[k].parent_id) == parent {
            child_indices(items.take(k), parent).push(k)
        } else {
            child_indices(items.take(k), parent)
        },
{
    assert(items.take(k + 1).drop_last() =~= items.take(k));
}

proof fn lemma_child_indices_range(items: Seq<OutlineItem>, parent: Option<Seq<char>>)
    ensures
        forall|k: int|
            0 <= k < child_indices(items, parent).len() ==> 0 <= #[trigger] child_indices(
                items,
                parent,
            )[k] < items.len(),
    decreases items.len(),
{
    if items.len() > 0 {
        lemma_child_indices_range(items.drop_last(), parent);
        let rest = child_indices(items.drop_last(), parent);
        assert forall|k: int| 0 <= k < child_indices(items, parent).len() implies 0
            <= #[trigger] child_indices(items, parent)[k] < items.len() by {
            if k < rest.len() {
                assert(child_indices(items, parent)[k] == rest[k]);
            }
        }
    }
}

fn parent_matches(p: &Option<String>, parent: Option<&String>) -> (r: bool)
    ensures
        r == (opt_view(*p) == match parent {
            Some(s) => Some(s@),
            None => None::<Seq<char>>,
        }),
{
    match (p, parent) {
        (Some(a), Some(b)) => *a == *b,
        (None, None) => true,
        _ => false,
    }
}

fn build_level(items: &Vec<OutlineItem>, parent: Option<&String>, depth: usize) -> (res: Vec<TreeNode>)
    ensures
        is_tree(
            res@,
            items@,
            match parent {
                Some(s) => Some(s@),
                None => None::<Seq<char>>,
            },
            depth as nat,
        ),
    decreases depth,
{
    let ghost pv = match parent {
        Some(s) => Some(s@),
        None => None::<Seq<char>>,
    };
    let mut nodes: Vec<TreeNode> = Vec::new();
    let n = items.len();
    assert(items@.take(0) =~= Seq::<OutlineItem>::empty());
    for i in 0..n
        invariant
            n == items.len(),
            pv == match parent {
                Some(s) => Some(s@),
                None => None::<Seq<char>>,
            },
            nodes@.len() == child_indices(items@.take(i as int), pv).len(),
            forall|k: int|
                0 <= k < nodes@.len() ==> {
                    let nd = #[trigger] nodes@[k];
                    let j = child_indices(items@.take(i as int), pv)[k];
                    &&& nd.idx as int == j
                    &&& 0 <= j < i
                    &&& nd.id@ == items@[j].id@
                    &&& nd.layers_count == items@[j].layers_count
                    &&& if depth == 0 {
                        nd.children@.len() == 0
                    } else {
                        is_tree(nd.children@, items@, Some(items@[j].id@), (depth - 1) as nat)
                    }
                },
    {
        proof {
            lemma_child_indices(items@, pv, i as int);
            lemma_child_indices_range(items@.take(i as int), pv);
        }
        let el = &items[i];
        if parent_matches(&el.parent_id, parent) {
            let children = if depth == 0 {
                Vec::new()
            } else {
                build_level(items, Some(&el.id), depth - 1)
            };
            nodes.push(TreeNode { idx: i, id: el.id.clone(), layers_count: el.layers_count, children });
        }
    }
    assert(items@.take(n as int) =~= items@);
    nodes
}

/// The explorer's tree of `elements` under `parent_id` (the roots when it
/// is `None`): each element whose parent is `parent_id`, in order, with
/// the tree of its own children below it. The tree is followed as many
/// levels down as there are elements, which reaches every element of an
/// outline whose parent links hold no cycle.
pub fn build_tree(elements: &Vec<OutlineItem>, parent_id: Option<&String>) -> (res: Vec<TreeNode>)
    ensures
        is_tree(
            res@,
            elements@,
            match parent_id {
                Some(s) => Some(s@),
                None => None::<Seq<char>>,
            },
            elements@.len(),
        ),
{
    build_level(elements, parent_id, elements.len())
}

/// `chain` runs down from a root, each item the child of the one before.
pub open spec fn is_chain(items: Seq<OutlineItem>, chain: Seq<int>) -> bool {
    &&& chain.len() >= 1
    &&& forall|k: int| 0 <= k < chain.len() ==> 0 <= #[trigger] chain[k] < items.len()
    &&& items[chain[0]].parent_id.is_none()
    &&& forall|k: int|
        0 < k < chain.len() ==> opt_view(items[#[trigger] chain[k]].parent_id) == Some(
            items[chain[k - 1]].id@,
        )
}

/// Item `i` lies `level` levels below the roots: a chain of `level + 1`
/// items runs down from a root to it.
pub open spec fn at_level(items: Seq<OutlineItem>, i: int, level: nat) -> bool {
    exists|chain: Seq<int>| #[trigger]
        is_chain(items, chain) && chain.len() == level + 1 && chain.last() == i
}

/// No item lies as many levels below the roots as there are items: the
/// parent links reachable from the roots hold no cycle.
pub open spec fn finite_depth(items: Seq<OutlineItem>) -> bool {
    forall|i: int| !#[trigger] at_level(items, i, items.len())
}

proof fn lemma_no_deeper(items: Seq<OutlineItem>, i: int, l: nat)
    requires
        finite_depth(items),
        l >= items.len(),
    ensures
        !at_level(items, i, l),
{
    if at_level(items, i, l) {
        let chain = choose|chain: Seq<int>| #[trigger]
            is_chain(items, chain) && chain.len() == l + 1 && chain.last() == i;
        let c = chain.take(items.len() + 1 as int);
        assert(is_chain(items, c));
        assert(at_level(items, c.last(), items.len()));
        assert(!at_level(items, c.last(), items.len()));
    }
}

proof fn lemma_child_level(items: Seq<OutlineItem>, i: int, g: int, level: nat)
    requires
        at_level(items, i, level),
        0 <= g < items.len(),
        opt_view(items[g].parent_id) == Some(items[i].id@),
    ensures
        at_level(items, g, level + 1),
{
    let chain = choose|chain: Seq<int>| #[trigger]
        is_chain(items, chain) && chain.len() == level + 1 && chain.last() == i;
    let c = chain.push(g);
    assert(is_chain(items, c)) by {
        assert forall|k: int| 0 < k < c.len() implies opt_view(
            items[#[trigger] c[k]].parent_id,
        ) == Some(items[c[k - 1]].id@) by {
            if k < chain.len() {
                assert(c[k] == chain[k]);
                assert(c[k - 1] == chain[k - 1]);
            }
        }
    }
}

proof fn lemma_more_depth(
    nodes: Seq<TreeNode>,
    items: Seq<OutlineItem>,
    parent: Option<Seq<char>>,
    level: nat,
    d1: nat,
    d2: nat,
)
    requires
        finite_depth(items),
        d1 + level >= items.len(),
        d2 >= d1,
        forall|i: int|
            0 <= i < items.len() && opt_view(#[trigger] items[i].parent_id) == parent ==> at_level(
                items,
                i,
                level,
            ),
        is_tree(nodes, items, parent, d1),
    ensures
        is_tree(nodes, items, parent, d2),
    decreases d1,
{
    let idxs = child_indices(items, parent);
    lemma_child_indices_range(items, parent);
    lemma_child_indices_match(items, parent);
    assert forall|k: int| 0 <= k < nodes.len() implies {
        let n = #[trigger] nodes[k];
        let i = idxs[k];
        &&& n.idx as int == i
        &&& n.id@ == items[i].id@
        &&& n.layers_count == items[i].layers_count
        &&& if d2 == 0 {
            n.children@.len() == 0
        } else {
            is_tree(n.children@, items, Some(items[i].id@), (d2 - 1) as nat)
        }
    } by {
        let i = idxs[k];
        assert(opt_view(items[i].parent_id) == parent);
        if d1 == 0 {
            lemma_no_deeper(items, i, level);
        } else {
            assert forall|g: int|
                0 <= g < items.len() && opt_view(#[trigger] items[g].parent_id) == Some(
                    items[i].id@,
                ) implies at_level(items, g, level + 1) by {
                lemma_child_level(items, i, g, level);
            }
            lemma_more_depth(
                nodes[k].children@,
                items,
                Some(items[i].id@),
                level + 1,
                (d1 - 1) as nat,
                (d2 - 1) as nat,
            );
        }
    }
}

proof fn lemma_child_indices_match(items: Seq<OutlineItem>, parent: Option<Seq<char>>)
    ensures
        forall|k: int|
            0 <= k < child_indices(items, parent).len() ==> opt_view(
                items[#[trigger] child_indices(items, parent)[k]].parent_id,
            ) == parent,
    decreases items.len(),
{
    if items.len() > 0 {
        lemma_child_indices_match(items.drop_last(), parent);
        let rest = child_indices(items.drop_last(), parent);
        lemma_child_indices_range(items.drop_last(), parent);
        assert forall|k: int| 0 <= k < child_indices(items, parent).len() implies opt_view(
            items[#[trigger] child_indices(items, parent)[k]].parent_id,
        ) == parent by {
            if k < rest.len() {
                assert(child_indices(items, parent)[k] == rest[k]);
                assert(items.drop_last()[rest[k]] == items[rest[k]]);
            }
        }
    }
}

/// The explorer's tree is complete: when the parent links reachable from
/// the roots hold no cycle, following the tree further down than there are
/// elements finds nothing more.
pub proof fn law_tree_is_complete(nodes: Seq<TreeNode>, items: Seq<OutlineItem>, depth: nat)
    requires
        finite_depth(items),
        is_tree(nodes, items, None, items.len()),
        depth >= items.len(),
    ensures
        is_tree(nodes, items, None, depth),
{
    assert forall|i: int|
        0 <= i < items.len() && opt_view(#[trigger] items[i].parent_id) == None::<Seq<char>>
            implies at_level(items, i, 0) by {
        let c = seq![i];
        assert(is_chain(items, c));
    }
    lemma_more_depth(nodes, items, None, 0, items.len(), depth);
}

// ---------------------------------------------------------------------------
// Parts of a 3D object
/// What the outliner reads of an object part: its id and its parent's id.
#[derive(Clone, Debug)]
pub struct PartLink {
    pub id: String,
    pub parent_part_id: Option<String>,
}

/// The position of the first part called `id`.
pub open spec fn first_part(links: Seq<PartLink>, id: Seq<char>) -> Option<nat>
    decreases links.len(),
{
    if links.len() == 0 {
        None
    } else {
        match first_part(links.drop_last(), id) {
            Some(k) => Some(k),
            None => if links.last().id@ == id {
                Some((links.len() - 1) as nat)
            } else {
                None
            },
        }
    }
}

/// The next id up a parent chain: the parent of the first part with the
/// current id; the chain ends at a part without a parent or an unknown id.
pub open spec fn chain_step(links: Seq<PartLink>, cur: Option<Seq<char>>) -> Option<Seq<char>> {
    match cur {
        None => None,
        Some(p) => match first_part(links, p) {
            Some(k) => opt_view(links[k as int].parent_part_id),
            None => None,
        },
    }
}

/// The id `m` steps up the parent chain from `start`.
pub open spec fn chain_at(links: Seq<PartLink>, start: Option<Seq<char>>, m: nat) -> Option<
    Seq<char>,
>
    decreases m,
{
    if m == 0 {
        start
    } else {
        chain_step(links, chain_at(links, start, (m - 1) as nat))
    }
}

/// The walk up the chain from `start` stops after `m` steps: there it
/// reaches `dragged`, or the chain ends.
pub open spec fn chain_stops_at(
    links: Seq<PartLink>,
    start: Option<Seq<char>>,
    dragged: Seq<char>,
    m: nat,
) -> bool {
    chain_at(links, start, m).is_none() || chain_at(links, start, m) == Some(dragged)
}

/// Putting `dragged` under `new_parent` would close a cycle: `dragged` is
/// `new_parent` or one of its ancestors.
pub open spec fn closes_cycle(links: Seq<PartLink>, new_parent: Option<Seq<char>>, dragged: Seq<
    char,
>) -> bool {
    exists|m: nat| #[trigger] chain_at(links, new_parent, m) == Some(dragged)
}

proof fn lemma_chain_none_stays(links: Seq<PartLink>, start: Option<Seq<char>>, a: nat, b: nat)
    requires
        a <= b,
        chain_at(links, start, a).is_none(),
    ensures
        chain_at(links, start, b).is_none(),
    decreases b - a,
{
    if a < b {
        lemma_chain_none_stays(links, start, a, (b - 1) as nat);
    }
}

fn first_part_exec(links: &Vec<PartLink>, id: &String) -> (r: Option<usize>)
    ensures
        r.is_some() <==> first_part(links@, id@).is_some(),
        r.is_some() ==> r.unwrap() as nat == first_part(links@, id@).unwrap(),
{
    let n = links.len();
    assert(links@.take(0) =~= Seq::<PartLink>::empty());
    for i in 0..n
        invariant
            n == links.len(),
            first_part(links@.take(i as int), id@).is_none(),
    {
        assert(links@.take(i + 1).drop_last() =~= links@.take(i as int));
        if links[i].id == *id {
            proof {
                lemma_first_part_prefix(links@, id@, (i + 1) as int);
            }
            return Some(i);
        }
    }
    assert(links@.take(n as int) =~= links@);
    None
}

proof fn lemma_first_part_prefix(links: Seq<PartLink>, id: Seq<char>, k: int)
    requires
        0 <= k <= links.len(),
        first_part(links.take(k), id).is_some(),
    ensures
        first_part(links, id) == first_part(links.take(k), id),
    decreases links.len() - k,
{
    if k < links.len() {
        assert(links.take(k + 1).drop_last() =~= links.take(k));
        lemma_first_part_prefix(links, id, k + 1);
    } else {
        assert(links.take(k) =~= links);
    }
}

proof fn lemma_first_part_bound(links: Seq<PartLink>, id: Seq<char>)
    ensures
        first_part(links, id) matches Some(k) ==> k < links.len() && links[k as int].id@ == id,
    decreases links.len(),
{
    if links.len() > 0 {
        lemma_first_part_bound(links.drop_last(), id);
    }
}

/// The part that a drag-and-drop moves under `new_parent` (`None`: to the
/// top level): the first part called `dragged_id`, unless the move would
/// close a cycle, or no part has that id.
pub fn reparent_target(links: &Vec<PartLink>, dragged_id: &String, new_parent: &Option<String>) -> (r:
    Option<usize>)
    requires
        exists|m: nat| #[trigger]
            chain_stops_at(links@, opt_view(*new_parent), dragged_id@, m),
    ensures
        r.is_some() <==> !closes_cycle(links@, opt_view(*new_parent), dragged_id@) && first_part(
            links@,
            dragged_id@,
        ).is_some(),
        r.is_some() ==> r.unwrap() as nat == first_part(links@, dragged_id@).unwrap(),
{
    let ghost start = opt_view(*new_parent);
    let ghost bound = choose|m: nat| #[trigger] chain_stops_at(links@, start, dragged_id@, m);
    let mut cur: Option<String> = new_parent.clone();
    let mut steps: usize = 0;
    let ghost mut gsteps: nat = 0;
    let mut is_cyclic = false;
    loop
        invariant_except_break
            !is_cyclic,
            opt_view(cur) == chain_at(links@, start, gsteps),
            gsteps <= bound,
            chain_stops_at(links@, start, dragged_id@, bound),
            forall|m: nat| m < gsteps ==> !#[trigger] chain_stops_at(links@, start, dragged_id@, m),
        ensures
            is_cyclic <==> chain_at(links@, start, gsteps) == Some(dragged_id@),
            chain_stops_at(links@, start, dragged_id@, gsteps),
            forall|m: nat| m < gsteps ==> !#[trigger] chain_stops_at(links@, start, dragged_id@, m),
        decreases bound - gsteps,
    {
        match &cur {
            None => {
                break ;
            },
            Some(pid) => {
                if *pid == *dragged_id {
                    is_cyclic = true;
                    break ;
                }
                proof {
                    if gsteps == bound {
                        assert(chain_stops_at(links@, start, dragged_id@, gsteps));
                    }
                    lemma_first_part_bound(links@, pid@);
                }
                match first_part_exec(links, pid) {
                    Some(k) => {
                        let next = links[k].parent_part_id.clone();
                        cur = next;
                    },
                    None => {
                        cur = None;
                    },
                }
                proof {
                    gsteps = gsteps + 1;
                }
            },
        }
    }
    proof {
        if !is_cyclic && closes_cycle(links@, start, dragged_id@) {
            let m = choose|m: nat| #[trigger] chain_at(links@, start, m) == Some(dragged_id@);
            if m < gsteps {
                assert(chain_stops_at(links@, start, dragged_id@, m));
            } else {
                lemma_chain_none_stays(links@, start, gsteps, m);
            }
        }
    }
    if is_cyclic {
        None
    } else {
        first_part_exec(links, dragged_id)
    }
}

/// Whether the walk up the chain from `new_parent` stops (at `dragged_id`
/// or at the chain's end) within as many steps as there are parts, plus
/// one.
pub fn parent_chain_ends(links: &Vec<PartLink>, dragged_id: &String, new_parent: &Option<String>) -> (r:
    bool)
    requires
        links@.len() < usize::MAX,
    ensures
        r <==> exists|m: nat|
            m <= links@.len() + 1 && #[trigger] chain_stops_at(
                links@,
                opt_view(*new_parent),
                dragged_id@,
                m,
            ),
{
    let ghost start = opt_view(*new_parent);
    let mut cur: Option<String> = new_parent.clone();
    let limit = links.len();
    let mut steps: usize = 0;
    while steps <= limit
        invariant
            steps <= limit + 1,
            limit == links@.len(),
            limit < usize::MAX,
            start == opt_view(*new_parent),
            opt_view(cur) == chain_at(links@, start, steps as nat),
            forall|m: nat| m < steps ==> !#[trigger] chain_stops_at(links@, start, dragged_id@, m),
        decreases limit + 1 - steps,
    {
        match &cur {
            None => {
                assert(chain_stops_at(links@, start, dragged_id@, steps as nat));
                return true;
            },
            Some(pid) => {
                if *pid == *dragged_id {
                    assert(chain_stops_at(links@, start, dragged_id@, steps as nat));
                    return true;
                }
                match first_part_exec(links, pid) {
                    Some(k) => {
                        proof {
                            lemma_first_part_bound(links@, pid@);
                        }
                        let next = links[k].parent_part_id.clone();
                        cur = next;
                    },
                    None => {
                        cur = None;
                    },
                }
            },
        }
        steps = steps + 1;
    }
    let r = match &cur {
        None => true,
        Some(pid) => *pid == *dragged_id,
    };
    proof {
        if r {
            assert(chain_stops_at(links@, start, dragged_id@, steps as nat));
        } else {
            assert forall|m: nat| m <= links@.len() + 1 implies !#[trigger] chain_stops_at(
                links@,
                start,
                dragged_id@,
                m,
            ) by {
                if m == steps {
                } else {
                    assert(m < steps);
                }
            }
        }
    }
    r
}

} // verus!
