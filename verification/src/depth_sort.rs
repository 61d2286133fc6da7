use vstd::prelude::*;

verus! {

/// Things drawn at a depth: lower depths are drawn first.
pub trait Depth {
    spec fn depth(&self) -> i32;

    fn get_depth(&self) -> (z: i32)
        ensures
            z == self.depth(),
    ;
}

/// `s` with `e` placed after every element whose depth is at most `e`'s,
/// scanning from the back.
pub open spec fn insert_by_z<T: Depth>(s: Seq<T>, e: T) -> Seq<T>
    decreases s.len(),
{
    if s.len() == 0 {
        seq![e]
    } else if s.last().depth() <= e.depth() {
        s.push(e)
    } else {
        insert_by_z(s.drop_last(), e).push(s.last())
    }
}

/// Insertion sort by depth; equal depths keep their order.
pub open spec fn sort_by_z<T: Depth>(s: Seq<T>) -> Seq<T>
    decreases s.len(),
{
    if s.len() == 0 {
        s
    } else {
        insert_by_z(sort_by_z(s.drop_last()), s.last())
    }
}

pub open spec fn sorted_by_z<T: Depth>(s: Seq<T>) -> bool {
    forall|i: int, j: int| 0 <= i <= j < s.len() ==> s[i].depth() <= s[j].depth()
}

proof fn lemma_insert_by_z_split<T: Depth>(s: Seq<T>, e: T, j: int)
    requires
        0 <= j <= s.len(),
        forall|k: int| j <= k < s.len() ==> s[k].depth() > e.depth(),
        j == 0 || s[j - 1].depth() <= e.depth(),
    ensures
        insert_by_z(s, e) =~= s.take(j).push(e) + s.skip(j),
    decreases s.len(),
{
    if s.len() == j {
        assert(s.take(j) =~= s);
        assert(s.skip(j) =~= Seq::<T>::empty());
    } else {
        lemma_insert_by_z_split(s.drop_last(), e, j);
        assert(s.drop_last().take(j) =~= s.take(j));
        assert(s.drop_last().skip(j).push(s.last()) =~= s.skip(j));
    }
}

/// The same items ordered by depth, a stable sort: items of equal depth
/// keep the order they came in.
pub fn sort_by_depth<T: Depth + Copy>(items: &Vec<T>) -> (res: Vec<T>)
    ensures
        res@ == sort_by_z(items@),
{
    let mut res: Vec<T> = Vec::new();
    let n = items.len();
    assert(items@.take(0) =~= Seq::<T>::empty());
    for i in 0..n
        invariant
            n == items.len(),
            res@ == sort_by_z(items@.take(i as int)),
    {
        let e = items[i];
        let ez = e.get_depth();
        let mut j = res.len();
        while j > 0 && res[j - 1].get_depth() > ez
            invariant
                j <= res.len(),
                ez == e.depth(),
                forall|k: int| j <= k < res.len() ==> res@[k].depth() > e.depth(),
            decreases j,
        {
            j = j - 1;
        }
        proof {
            lemma_insert_by_z_split(res@, e, j as int);
            assert(items@.take(i + 1).drop_last() =~= items@.take(i as int));
        }
        res.insert(j, e);
        assert(res@ =~= sort_by_z(items@.take(i + 1)));
    }
    assert(items@.take(n as int) =~= items@);
    res
}


pub open spec fn has_depth<T: Depth>(k: i32) -> spec_fn(T) -> bool {
    |o: T| o.depth() == k
}

proof fn lemma_insert_by_z_bounded<T: Depth>(s: Seq<T>, e: T, b: i32)
    requires
        forall|k: int| 0 <= k < s.len() ==> s[k].depth() <= b,
        e.depth() <= b,
    ensures
        insert_by_z(s, e).len() == s.len() + 1,
        forall|k: int| 0 <= k < insert_by_z(s, e).len() ==> insert_by_z(s, e)[k].depth() <= b,
    decreases s.len(),
{
    if s.len() > 0 && s.last().depth() > e.depth() {
        lemma_insert_by_z_bounded(s.drop_last(), e, b);
    }
}

proof fn lemma_insert_by_z_sorted<T: Depth>(s: Seq<T>, e: T)
    requires
        sorted_by_z(s),
    ensures
        sorted_by_z(insert_by_z(s, e)),
    decreases s.len(),
{
    if s.len() > 0 && s.last().depth() > e.depth() {
        let t = s.drop_last();
        lemma_insert_by_z_sorted(t, e);
        lemma_insert_by_z_bounded(t, e, s.last().depth());
    }
}

proof fn lemma_insert_by_z_multiset<T: Depth>(s: Seq<T>, e: T)
    ensures
        insert_by_z(s, e).to_multiset() =~= s.to_multiset().insert(e),
    decreases s.len(),
{
    broadcast use vstd::seq_lib::group_to_multiset_ensures;
    if s.len() == 0 {
        assert(seq![e] =~= Seq::<T>::empty().push(e));
    } else if s.last().depth() > e.depth() {
        lemma_insert_by_z_multiset(s.drop_last(), e);
        assert(s.drop_last().push(s.last()) =~= s);
    }
}

proof fn lemma_insert_by_z_filter<T: Depth>(s: Seq<T>, e: T, k: i32)
    ensures
        insert_by_z(s, e).filter(has_depth(k)) =~= if e.depth() == k {
            s.filter(has_depth(k)).push(e)
        } else {
            s.filter(has_depth(k))
        },
    decreases s.len(),
{
    reveal_with_fuel(Seq::filter, 1);
    if s.len() == 0 {
        assert(seq![e].drop_last() =~= Seq::<T>::empty());
        assert(Seq::<T>::empty().filter(has_depth(k)) =~= Seq::<T>::empty());
    } else if s.last().depth() <= e.depth() {
        assert(s.push(e).drop_last() =~= s);
    } else {
        let t = s.drop_last();
        lemma_insert_by_z_filter(t, e, k);
        let u = insert_by_z(t, e);
        assert(u.push(s.last()).drop_last() =~= u);
    }
}

/// Ordering items by depth puts them in non-decreasing depth.
pub proof fn law_sort_by_z_sorted<T: Depth>(s: Seq<T>)
    ensures
        sorted_by_z(sort_by_z(s)),
    decreases s.len(),
{
    if s.len() > 0 {
        law_sort_by_z_sorted(s.drop_last());
        lemma_insert_by_z_sorted(sort_by_z(s.drop_last()), s.last());
    }
}

/// Ordering items by depth neither loses nor adds any item.
pub proof fn law_sort_by_z_permutes<T: Depth>(s: Seq<T>)
    ensures
        sort_by_z(s).to_multiset() =~= s.to_multiset(),
    decreases s.len(),
{
    broadcast use vstd::seq_lib::group_to_multiset_ensures;
    if s.len() > 0 {
        law_sort_by_z_permutes(s.drop_last());
        lemma_insert_by_z_multiset(sort_by_z(s.drop_last()), s.last());
        assert(s.drop_last().push(s.last()) =~= s);
    }
}

/// Ordering items by depth is stable: the operations at any one
/// depth come out in the order they went in.
pub proof fn law_sort_by_z_stable<T: Depth>(s: Seq<T>, k: i32)
    ensures
        sort_by_z(s).filter(has_depth(k)) =~= s.filter(has_depth(k)),
    decreases s.len(),
{
    reveal_with_fuel(Seq::filter, 1);
    if s.len() > 0 {
        law_sort_by_z_stable(s.drop_last(), k);
        lemma_insert_by_z_filter(sort_by_z(s.drop_last()), s.last(), k);
    } else {
        assert(sort_by_z(s) =~= s);
    }
}

/// A single item is already in order.
pub proof fn lemma_sort_single<T: Depth>(s: Seq<T>)
    requires
        s.len() == 1,
    ensures
        sort_by_z(s) == s,
{
    assert(s.drop_last() =~= Seq::<T>::empty());
    assert(sort_by_z(s.drop_last()) =~= Seq::<T>::empty());
    assert(Seq::<T>::empty().push(s.last()) =~= s);
}

} // verus!
