use vstd::prelude::*;

verus! {

/// One cached composition: the texture's id, the content hash it was
/// composed from, and the result.
pub struct CacheEntry<V> {
    pub id: String,
    pub hash: u64,
    pub value: V,
}

/// No two entries share an id.
pub open spec fn unique_ids<V>(s: Seq<CacheEntry<V>>) -> bool {
    forall|i: int, j: int| 0 <= i < j < s.len() ==> s[i].id@ != s[j].id@
}

/// The entries as a map from texture id to hash and result.
pub open spec fn entries_map<V>(s: Seq<CacheEntry<V>>) -> Map<Seq<char>, (u64, V)>
    decreases s.len(),
{
    if s.len() == 0 {
        Map::empty()
    } else {
        entries_map(s.drop_last()).insert(s.last().id@, (s.last().hash, s.last().value))
    }
}

proof fn lemma_entries_map<V>(s: Seq<CacheEntry<V>>)
    requires
        unique_ids(s),
    ensures
        forall|k: Seq<char>|
            #[trigger] entries_map(s).contains_key(k) <==> exists|i: int|
                0 <= i < s.len() && s[i].id@ == k,
        forall|i: int|
            0 <= i < s.len() ==> #[trigger] entries_map(s)[s[i].id@] == (s[i].hash, s[i].value),
    decreases s.len(),
{
    if s.len() > 0 {
        let t = s.drop_last();
        lemma_entries_map(t);
        assert forall|k: Seq<char>| #[trigger] entries_map(s).contains_key(k) <==> exists|i: int|
            0 <= i < s.len() && s[i].id@ == k by {
            if entries_map(s).contains_key(k) {
                if k != s.last().id@ {
                    assert(entries_map(t).contains_key(k));
                    let i = choose|i: int| 0 <= i < t.len() && t[i].id@ == k;
                    assert(s[i] == t[i]);
                    assert(0 <= i < s.len() && s[i].id@ == k);
                } else {
                    assert(s[s.len() - 1].id@ == k);
                }
            }
            if exists|i: int| 0 <= i < s.len() && s[i].id@ == k {
                let i = choose|i: int| 0 <= i < s.len() && s[i].id@ == k;
                if i < s.len() - 1 {
                    assert(t[i] == s[i]);
                    assert(entries_map(t).contains_key(k));
                }
            }
        }
        assert forall|i: int| 0 <= i < s.len() implies #[trigger] entries_map(s)[s[i].id@] == (
        s[i].hash, s[i].value) by {
            if i < s.len() - 1 {
                assert(t[i] == s[i]);
                assert(s[i].id@ != s[s.len() - 1].id@);
                assert(entries_map(t)[t[i].id@] == (t[i].hash, t[i].value));
            }
        }
    }
}

/// The compositions of the project's textures, each kept until its
/// texture's content changes.
pub struct TextureCache<V> {
    entries: Vec<CacheEntry<V>>,
}

impl<V> TextureCache<V> {
    /// The cache as a map from texture id to content hash and result.
    pub closed spec fn view(&self) -> Map<Seq<char>, (u64, V)> {
        entries_map(self.entries@)
    }

    pub closed spec fn wf(&self) -> bool {
        unique_ids(self.entries@)
    }

    pub fn new() -> (c: Self)
        ensures
            c.wf(),
            c.view() == Map::<Seq<char>, (u64, V)>::empty(),
    {
        TextureCache { entries: Vec::new() }
    }

    fn position(&self, id: &str) -> (r: Option<usize>)
        requires
            self.wf(),
        ensures
            r matches Some(i) ==> i < self.entries@.len() && self.entries@[i as int].id@ == id@,
            r is None ==> forall|i: int|
                0 <= i < self.entries@.len() ==> self.entries@[i].id@ != id@,
    {
        let n = self.entries.len();
        for i in 0..n
            invariant
                n == self.entries.len(),
                forall|k: int| 0 <= k < i ==> self.entries@[k].id@ != id@,
        {
            if crate::text::str_eq(self.entries[i].id.as_str(), id) {
                return Some(i);
            }
        }
        None
    }

    /// Whether a texture with content hash `hash` must be composed anew:
    /// it has no entry, or one composed from other content.
    pub fn needs_compose(&self, id: &str, hash: u64) -> (r: bool)
        requires
            self.wf(),
        ensures
            r == !(self.view().contains_key(id@) && self.view()[id@].0 == hash),
    {
        proof {
            lemma_entries_map(self.entries@);
        }
        match self.position(id) {
            Some(i) => self.entries[i].hash != hash,
            None => true,
        }
    }

    /// The cached composition of a texture, without composing anything.
    pub fn get(&self, id: &str) -> (r: Option<&V>)
        requires
            self.wf(),
        ensures
            r matches Some(v) ==> self.view().contains_key(id@) && self.view()[id@].1 == *v,
            r is None ==> !self.view().contains_key(id@),
    {
        proof {
            lemma_entries_map(self.entries@);
        }
        match self.position(id) {
            Some(i) => Some(&self.entries[i].value),
            None => None,
        }
    }

    /// Keeps `value`, composed from content with hash `hash`, for texture
    /// `id`, replacing what was kept for it.
    pub fn store(&mut self, id: String, hash: u64, value: V)
        requires
            old(self).wf(),
        ensures
            final(self).wf(),
            final(self).view() == old(self).view().insert(id@, (hash, value)),
    {
        let ghost old_map = self.view();
        let ghost k = id@;
        proof {
            lemma_entries_map(self.entries@);
        }
        match self.position(id.as_str()) {
            Some(i) => {
                let ghost before = self.entries@;
                self.entries.set(i, CacheEntry { id, hash, value });
                proof {
                    let s = self.entries@;
                    assert(unique_ids(s)) by {
                        assert forall|a: int, b: int| 0 <= a < b < s.len() implies s[a].id@
                            != s[b].id@ by {
                            if a != i && b != i {
                                assert(s[a] == before[a] && s[b] == before[b]);
                            } else if a == i {
                                assert(s[b] == before[b]);
                            } else {
                                assert(s[a] == before[a]);
                            }
                        }
                    }
                    lemma_entries_map(s);
                    assert forall|q: Seq<char>| #[trigger] self.view().contains_key(q) == old_map.insert(
                        k,
                        (hash, value),
                    ).contains_key(q) by {
                        if q == k {
                            assert(s[i as int].id@ == k);
                            assert(entries_map(s).contains_key(q));
                        } else {
                            if old_map.contains_key(q) {
                                let j = choose|j: int| 0 <= j < before.len() && before[j].id@ == q;
                                assert(j != i);
                                assert(s[j] == before[j]);
                                assert(entries_map(s).contains_key(q));
                            }
                            if entries_map(s).contains_key(q) {
                                let j = choose|j: int| 0 <= j < s.len() && s[j].id@ == q;
                                assert(j != i);
                                assert(s[j] == before[j]);
                                assert(old_map.contains_key(q));
                            }
                        }
                    }
                    assert forall|q: Seq<char>| #[trigger] self.view().contains_key(q) implies self.view()[q]
                        == old_map.insert(k, (hash, value))[q] by {
                        let j = choose|j: int| 0 <= j < s.len() && s[j].id@ == q;
                        if j != i {
                            assert(s[j] == before[j]);
                        }
                    }
                    assert(self.view() =~= old_map.insert(k, (hash, value)));
                }
            },
            None => {
                self.entries.push(CacheEntry { id, hash, value });
                proof {
                    let s = self.entries@;
                    assert(s.drop_last() =~= old(self).entries@);
                    assert(unique_ids(s)) by {
                        assert forall|a: int, b: int| 0 <= a < b < s.len() implies s[a].id@
                            != s[b].id@ by {
                            assert(s[a] == old(self).entries@[a]);
                            if b < s.len() - 1 {
                                assert(s[b] == old(self).entries@[b]);
                            }
                        }
                    }
                }
            },
        }
    }

    /// Removes and returns the entry of texture `id`.
    pub fn take(&mut self, id: &str) -> (r: Option<(u64, V)>)
        requires
            old(self).wf(),
        ensures
            final(self).wf(),
            r matches Some(e) ==> old(self).view().contains_key(id@) && old(self).view()[id@] == e,
            r is None ==> !old(self).view().contains_key(id@),
            final(self).view() == old(self).view().remove(id@),
    {
        let ghost old_map = self.view();
        proof {
            lemma_entries_map(self.entries@);
        }
        match self.position(id) {
            Some(i) => {
                let ghost before = self.entries@;
                let e = self.entries.remove(i);
                proof {
                    let s = self.entries@;
                    assert(unique_ids(s)) by {
                        assert forall|a: int, b: int| 0 <= a < b < s.len() implies s[a].id@
                            != s[b].id@ by {
                            let a0 = if a < i { a } else { a + 1 };
                            let b0 = if b < i { b } else { b + 1 };
                            assert(s[a] == before[a0] && s[b] == before[b0]);
                        }
                    }
                    lemma_entries_map(s);
                    assert forall|q: Seq<char>| #[trigger] self.view().contains_key(q) == old_map.remove(
                        id@,
                    ).contains_key(q) by {
                        if exists|j: int| 0 <= j < before.len() && before[j].id@ == q {
                            let j = choose|j: int| 0 <= j < before.len() && before[j].id@ == q;
                            if j < i {
                                assert(s[j] == before[j]);
                            } else if j > i {
                                assert(s[j - 1] == before[j]);
                            }
                        }
                        if exists|j: int| 0 <= j < s.len() && s[j].id@ == q {
                            let j = choose|j: int| 0 <= j < s.len() && s[j].id@ == q;
                            let j0 = if j < i { j } else { j + 1 };
                            assert(s[j] == before[j0]);
                        }
                    }
                    assert forall|q: Seq<char>| #[trigger] self.view().contains_key(q) implies self.view()[q]
                        == old_map.remove(id@)[q] by {
                        let j = choose|j: int| 0 <= j < s.len() && s[j].id@ == q;
                        let j0 = if j < i { j } else { j + 1 };
                        assert(s[j] == before[j0]);
                    }
                    assert(self.view() =~= old_map.remove(id@));
                }
                Some((e.hash, e.value))
            },
            None => {
                assert(old_map.remove(id@) =~= old_map);
                None
            },
        }
    }

    /// Forgets the textures whose ids are not in `ids`.
    pub fn retain_ids(&mut self, ids: &Vec<String>)
        requires
            old(self).wf(),
        ensures
            final(self).wf(),
            final(self).view() == old(self).view().restrict(
                ids@.map_values(|s: String| s@).to_set(),
            ),
    {
        let ghost old_map = self.view();
        let ghost keep = ids@.map_values(|s: String| s@).to_set();
        let mut old_entries: Vec<CacheEntry<V>> = Vec::new();
        std::mem::swap(&mut old_entries, &mut self.entries);
        let ghost before = old_entries@;
        proof {
            lemma_entries_map(before);
        }
        let mut kept: Vec<CacheEntry<V>> = Vec::new();
        let mut rest = old_entries;
        let ghost mut done: nat = 0;
        while rest.len() > 0
            invariant
                done + rest@.len() == before.len(),
                rest@ =~= before.subrange(done as int, before.len() as int),
                unique_ids(kept@),
                forall|j: int|
                    #![trigger kept@[j]]
                    0 <= j < kept@.len() ==> exists|m: int| 0 <= m < done && #[trigger] before[m] == kept@[j],
                forall|j: int| 0 <= j < kept@.len() ==> keep.contains(#[trigger] kept@[j].id@),
                forall|m: int|
                    0 <= m < done && keep.contains(#[trigger] before[m].id@) ==> exists|j: int|
                        0 <= j < kept@.len() && kept@[j] == before[m],
                unique_ids(before),
                keep == ids@.map_values(|s: String| s@).to_set(),
            decreases rest@.len(),
        {
            let e = rest.remove(0);
            let ghost m = done;
            assert(e == before[m as int]);
            if contains_id(ids, &e.id) {
                let ghost k0 = kept@;
                kept.push(e);
                proof {
                    let s = kept@;
                    assert forall|a: int, b: int| 0 <= a < b < s.len() implies s[a].id@ != s[b].id@ by {
                        if b == s.len() - 1 {
                            assert(s[a] == k0[a]);
                            let ma = choose|ma: int| 0 <= ma < done && #[trigger] before[ma] == k0[a];
                            assert(ma != m);
                        } else {
                            assert(s[a] == k0[a] && s[b] == k0[b]);
                        }
                    }
                    assert forall|j: int| #![trigger s[j]] 0 <= j < s.len() implies exists|mm: int| 0 <= mm < done + 1 && #[trigger] before[mm] == s[j] by {
                        if j < s.len() - 1 {
                            assert(s[j] == k0[j]);
                            let mm = choose|mm: int| 0 <= mm < done && #[trigger] before[mm] == k0[j];
                            assert(before[mm] == s[j]);
                        } else {
                            assert(before[m as int] == s[j]);
                        }
                    }
                    assert forall|mm: int| 0 <= mm < done + 1 && keep.contains(#[trigger] before[mm].id@) implies exists|j: int|
                        0 <= j < s.len() && s[j] == before[mm] by {
                        if mm < done {
                            let j = choose|j: int| 0 <= j < k0.len() && k0[j] == before[mm];
                            assert(s[j] == k0[j]);
                        } else {
                            assert(s[s.len() - 1] == before[mm]);
                        }
                    }
                }
            }
            proof {
                done = done + 1;
            }
        }
        self.entries = kept;
        proof {
            let s = self.entries@;
            lemma_entries_map(s);
            let target = old_map.restrict(keep);
            assert forall|q: Seq<char>| #[trigger] self.view().contains_key(q) == target.contains_key(q) by {
                if self.view().contains_key(q) {
                    let j = choose|j: int| 0 <= j < s.len() && s[j].id@ == q;
                    let m = choose|m: int| 0 <= m < done && #[trigger] before[m] == s[j];
                }
                if target.contains_key(q) {
                    let m = choose|m: int| 0 <= m < before.len() && before[m].id@ == q;
                    let j = choose|j: int| 0 <= j < s.len() && s[j] == before[m];
                }
            }
            assert forall|q: Seq<char>| #[trigger] self.view().contains_key(q) implies self.view()[q]
                == target[q] by {
                let j = choose|j: int| 0 <= j < s.len() && s[j].id@ == q;
                let m = choose|m: int| 0 <= m < done && #[trigger] before[m] == s[j];
            }
            assert(self.view() =~= target);
        }
    }
}

fn contains_id(ids: &Vec<String>, id: &String) -> (r: bool)
    ensures
        r == ids@.map_values(|s: String| s@).to_set().contains(id@),
{
    let ghost names = ids@.map_values(|s: String| s@);
    let n = ids.len();
    for i in 0..n
        invariant
            n == ids.len(),
            names == ids@.map_values(|s: String| s@),
            forall|k: int| 0 <= k < i ==> ids@[k]@ != id@,
    {
        if ids[i] == *id {
            assert(names[i as int] == id@);
            assert(names.contains(id@));
            return true;
        }
    }
    assert(!names.contains(id@)) by {
        if names.contains(id@) {
            let k = choose|k: int| 0 <= k < names.len() && names[k] == id@;
            assert(names[k] == ids@[k]@);
        }
    }
    false
}

/// A composition stored for a texture is what the cache then holds for it,
/// and the texture needs no new composition while its content hash stays
/// the same; other textures' entries are untouched.
pub proof fn law_store_then_lookup<V>(
    m: Map<Seq<char>, (u64, V)>,
    id: Seq<char>,
    hash: u64,
    value: V,
    other: Seq<char>,
)
    ensures
        m.insert(id, (hash, value)).contains_key(id),
        m.insert(id, (hash, value))[id] == (hash, value),
        other != id ==> (m.insert(id, (hash, value)).contains_key(other) == m.contains_key(other)),
        other != id && m.contains_key(other) ==> m.insert(id, (hash, value))[other] == m[other],
{
}

} // verus!
