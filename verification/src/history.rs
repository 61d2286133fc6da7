use vstd::prelude::*;

verus! {

/// How many snapshots the undo history keeps.
pub const HISTORY_LIMIT: usize = 200;

/// The abstract state of an undo history: the snapshots, the serialised
/// form of each (by which two snapshots are compared), and the position of
/// the current one.
pub ghost struct HistoryView<T> {
    pub snapshots: Seq<T>,
    pub keys: Seq<Seq<char>>,
    pub index: nat,
}

impl<T> HistoryView<T> {
    /// Snapshots and keys pair up, there are at most `HISTORY_LIMIT` of
    /// them, and the position is on a snapshot (or 0 when there is none).
    pub open spec fn wf(self) -> bool {
        &&& self.snapshots.len() == self.keys.len()
        &&& self.snapshots.len() <= HISTORY_LIMIT
        &&& if self.snapshots.len() == 0 {
            self.index == 0
        } else {
            self.index < self.snapshots.len()
        }
    }

    /// Whether recording a snapshot with serialised form `key` adds it:
    /// always on an empty history, else when it differs from the current
    /// snapshot.
    pub open spec fn records(self, key: Seq<char>) -> bool {
        self.snapshots.len() == 0 || self.keys[self.index as int] != key
    }

    /// Recording a snapshot: if it differs from the current one, everything
    /// after the current position is dropped, the snapshot is appended and
    /// becomes current; past `HISTORY_LIMIT` the oldest snapshot goes.
    pub open spec fn record(self, snapshot: T, key: Seq<char>) -> HistoryView<T> {
        if !self.records(key) {
            self
        } else {
            let kept = if self.snapshots.len() == 0 {
                0
            } else {
                self.index + 1
            };
            let snaps = self.snapshots.take(kept as int).push(snapshot);
            let keys = self.keys.take(kept as int).push(key);
            if snaps.len() > HISTORY_LIMIT {
                HistoryView { snapshots: snaps.drop_first(), keys: keys.drop_first(), index: (snaps.len() - 2) as nat }
            } else {
                HistoryView { snapshots: snaps, keys, index: (snaps.len() - 1) as nat }
            }
        }
    }

    /// One step back, if there is a step back.
    pub open spec fn step_back(self) -> HistoryView<T> {
        if self.index > 0 {
            HistoryView { index: (self.index - 1) as nat, ..self }
        } else {
            self
        }
    }

    /// One step forward, if there is a step forward.
    pub open spec fn step_forward(self) -> HistoryView<T> {
        if self.index + 1 < self.snapshots.len() {
            HistoryView { index: self.index + 1, ..self }
        } else {
            self
        }
    }
}

/// An undo/redo history of snapshots, each kept with its serialised form.
pub struct History<T> {
    snapshots: Vec<T>,
    keys: Vec<String>,
    index: usize,
}

impl<T> View for History<T> {
    type V = HistoryView<T>;

    closed spec fn view(&self) -> HistoryView<T> {
        HistoryView {
            snapshots: self.snapshots@,
            keys: self.keys@.map_values(|k: String| k@),
            index: self.index as nat,
        }
    }
}

impl<T> History<T> {
    /// An empty history.
    pub fn new() -> (h: Self)
        ensures
            h@.wf(),
            h@.snapshots.len() == 0,
            h@.index == 0,
    {
        let h = History { snapshots: Vec::new(), keys: Vec::new(), index: 0 };
        assert(h@.keys =~= Seq::<Seq<char>>::empty());
        h
    }

    pub fn len(&self) -> (n: usize)
        ensures
            n == self@.snapshots.len(),
    {
        self.snapshots.len()
    }

    /// The position of the current snapshot.
    pub fn index(&self) -> (i: usize)
        ensures
            i == self@.index,
    {
        self.index
    }

    /// The current snapshot, if there is any.
    pub fn current(&self) -> (s: Option<&T>)
        requires
            self@.wf(),
        ensures
            s == if self@.snapshots.len() == 0 {
                None
            } else {
                Some(&self@.snapshots[self@.index as int])
            },
    {
        if self.index < self.snapshots.len() {
            Some(&self.snapshots[self.index])
        } else {
            None
        }
    }

    /// Records `snapshot`, whose serialised form is `key`, unless it equals
    /// the current snapshot; returns whether it was recorded.
    pub fn record(&mut self, snapshot: T, key: String) -> (recorded: bool)
        requires
            old(self)@.wf(),
        ensures
            recorded == old(self)@.records(key@),
            final(self)@ == old(self)@.record(snapshot, key@),
            final(self)@.wf(),
    {
        let ghost old_view = self@;
        let differs = if self.index < self.keys.len() {
            self.keys[self.index] != key
        } else {
            true
        };
        if !differs {
            return false;
        }
        let kept = if self.snapshots.len() == 0 {
            0
        } else {
            self.index + 1
        };
        let ghost kk = key@;
        self.snapshots.truncate(kept);
        self.keys.truncate(kept);
        self.snapshots.push(snapshot);
        self.keys.push(key);
        proof {
            assert(self.keys@.map_values(|k: String| k@) =~= old_view.keys.take(kept as int).push(kk));
        }
        if self.snapshots.len() > HISTORY_LIMIT {
            self.snapshots.remove(0);
            self.keys.remove(0);
            self.index = self.snapshots.len() - 1;
            proof {
                assert(self.keys@.map_values(|k: String| k@) =~= old_view.keys.take(kept as int).push(
                    kk,
                ).drop_first());
                assert(self@.snapshots =~= old_view.snapshots.take(kept as int).push(snapshot).drop_first());
            }
        } else {
            self.index = self.snapshots.len() - 1;
        }
        true
    }

    /// Steps back to the previous snapshot; returns whether it moved.
    pub fn undo(&mut self) -> (moved: bool)
        requires
            old(self)@.wf(),
        ensures
            moved == (old(self)@.index > 0),
            final(self)@ == old(self)@.step_back(),
            final(self)@.wf(),
    {
        if self.index > 0 {
            self.index = self.index - 1;
            true
        } else {
            false
        }
    }

    /// Steps forward to the next snapshot; returns whether it moved.
    pub fn redo(&mut self) -> (moved: bool)
        requires
            old(self)@.wf(),
        ensures
            moved == (old(self)@.index + 1 < old(self)@.snapshots.len()),
            final(self)@ == old(self)@.step_forward(),
            final(self)@.wf(),
    {
        if self.index + 1 < self.snapshots.len() {
            self.index = self.index + 1;
            true
        } else {
            false
        }
    }

    /// Forgets every snapshot.
    pub fn clear(&mut self)
        ensures
            final(self)@.wf(),
            final(self)@.snapshots.len() == 0,
            final(self)@.index == 0,
    {
        self.snapshots.clear();
        self.keys.clear();
        self.index = 0;
        assert(self@.keys =~= Seq::<Seq<char>>::empty());
    }
}

/// A recorded snapshot becomes the current one, at the end of the history,
/// so that there is nothing left to redo; the history stays well formed.
pub proof fn law_record_makes_current<T>(v: HistoryView<T>, snapshot: T, key: Seq<char>)
    requires
        v.wf(),
        v.records(key),
    ensures
        v.record(snapshot, key).wf(),
        v.record(snapshot, key).index + 1 == v.record(snapshot, key).snapshots.len(),
        v.record(snapshot, key).snapshots[v.record(snapshot, key).index as int] == snapshot,
        v.record(snapshot, key).keys[v.record(snapshot, key).index as int] == key,
        v.record(snapshot, key).step_forward() == v.record(snapshot, key),
{
}

/// Recording the same state twice in a row records it once.
pub proof fn law_record_twice<T>(v: HistoryView<T>, a: T, b: T, key: Seq<char>)
    requires
        v.wf(),
    ensures
        !v.record(a, key).records(key),
        v.record(a, key).record(b, key) == v.record(a, key),
{
}

/// Recording keeps the snapshots up to the current one (all but the
/// oldest when the history is full) and drops those after it.
pub proof fn law_record_keeps_past<T>(v: HistoryView<T>, snapshot: T, key: Seq<char>)
    requires
        v.wf(),
        v.snapshots.len() > 0,
        v.records(key),
    ensures
        v.index + 2 <= HISTORY_LIMIT ==> v.record(snapshot, key).snapshots =~= v.snapshots.take(
            (v.index + 1) as int,
        ).push(snapshot),
        v.index + 2 > HISTORY_LIMIT ==> v.record(snapshot, key).snapshots =~= v.snapshots.take(
            (v.index + 1) as int,
        ).push(snapshot).drop_first(),
{
}

/// Undoing and then redoing returns to where the history was.
pub proof fn law_undo_then_redo<T>(v: HistoryView<T>)
    requires
        v.wf(),
        v.index > 0,
    ensures
        v.step_back().wf(),
        v.step_back().step_forward() == v,
{
}

/// Redoing and then undoing returns to where the history was.
pub proof fn law_redo_then_undo<T>(v: HistoryView<T>)
    requires
        v.wf(),
        v.index + 1 < v.snapshots.len(),
    ensures
        v.step_forward().wf(),
        v.step_forward().step_back() == v,
{
}

/// Undo and redo only move the position: every snapshot stays as it was.
pub proof fn law_steps_keep_snapshots<T>(v: HistoryView<T>)
    requires
        v.wf(),
    ensures
        v.step_back().wf(),
        v.step_forward().wf(),
        v.step_back().snapshots == v.snapshots,
        v.step_back().keys == v.keys,
        v.step_forward().snapshots == v.snapshots,
        v.step_forward().keys == v.keys,
{
}

} // verus!
