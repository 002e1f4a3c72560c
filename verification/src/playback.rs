//! Instance lifecycle of the native mixer. Each output block first removes
//! the instances that finished in an earlier block, then mixes the rest, then
//! publishes the instances that finished during this block. The script side
//! therefore sees an instance's end ("finished") one block before its
//! removal ("removed"), and reconciliation with the script's instance list
//! never resurrects an instance that was already removed.
//!
//! Sets of handles are kept as strictly increasing vectors, the order in
//! which they are reported.
use vstd::prelude::*;

verus! {

/// What the script publishes about one live instance.
#[derive(Clone, Copy, Debug, PartialEq, Eq, Structural)]
pub struct LivePlayback {
    pub handle: i64,
    pub looping: bool,
    pub track: i32,
    pub finished: bool,
}

/// The mixer's bookkeeping for one instance it plays.
#[derive(Clone, Copy, Debug, PartialEq, Eq, Structural)]
pub struct PlaybackSlot {
    pub handle: i64,
    pub looping: bool,
    pub track: i32,
    pub finished: bool,
}

pub open spec fn increasing(s: Seq<i64>) -> bool {
    forall|i: int, j: int| 0 <= i < j < s.len() ==> s[i] < s[j]
}

pub open spec fn slot_handles(slots: Seq<PlaybackSlot>) -> Seq<i64> {
    slots.map_values(|s: PlaybackSlot| s.handle)
}

pub open spec fn has_slot(slots: Seq<PlaybackSlot>, handle: i64) -> bool {
    exists|i: int| 0 <= i < slots.len() && slots[i].handle == handle
}

pub open spec fn finished_slot(slots: Seq<PlaybackSlot>, handle: i64) -> bool {
    exists|i: int| 0 <= i < slots.len() && slots[i].handle == handle && slots[i].finished
}

/// The slots that have not finished, in order.
pub open spec fn unfinished(slots: Seq<PlaybackSlot>) -> Seq<PlaybackSlot>
    decreases slots.len(),
{
    if slots.len() == 0 {
        slots
    } else {
        let rest = unfinished(slots.drop_last());
        if slots.last().finished {
            rest
        } else {
            rest.push(slots.last())
        }
    }
}

pub open spec fn is_live(live: Seq<LivePlayback>, handle: i64) -> bool {
    exists|i: int| 0 <= i < live.len() && live[i].handle == handle
}

/// A slot brought up to date with the script's entries for it: looping and
/// track from the last entry, finished if it or any entry says so.
pub open spec fn refreshed(slot: PlaybackSlot, live: Seq<LivePlayback>) -> PlaybackSlot
    decreases live.len(),
{
    if live.len() == 0 {
        slot
    } else {
        let earlier = refreshed(slot, live.drop_last());
        let entry = live.last();
        if entry.handle == slot.handle {
            PlaybackSlot {
                looping: entry.looping,
                track: entry.track,
                finished: earlier.finished || entry.finished,
                ..earlier
            }
        } else {
            earlier
        }
    }
}

/// The slots still live, refreshed, in order.
pub open spec fn reconciled(slots: Seq<PlaybackSlot>, live: Seq<LivePlayback>) -> Seq<PlaybackSlot>
    decreases slots.len(),
{
    if slots.len() == 0 {
        slots
    } else {
        let rest = reconciled(slots.drop_last(), live);
        if is_live(live, slots.last().handle) {
            rest.push(refreshed(slots.last(), live))
        } else {
            rest
        }
    }
}

/// The start of a block: finished instances leave and are recorded removed.
pub open spec fn retired(before: LifecycleModel, after: LifecycleModel) -> bool {
    &&& after.slots == unfinished(before.slots)
    &&& after.started == before.started
    &&& after.finished == before.finished
    &&& forall|h: i64|
        after.completed.contains(h) <==> (before.completed.contains(h) || finished_slot(
            before.slots,
            h,
        ))
}

/// The end of a mixed block: finished instances are published.
pub open spec fn published(before: LifecycleModel, after: LifecycleModel) -> bool {
    &&& after.slots == before.slots
    &&& after.started == before.started
    &&& after.completed == before.completed
    &&& forall|h: i64|
        after.finished.contains(h) <==> (before.finished.contains(h) || finished_slot(
            before.slots,
            h,
        ))
}

pub struct LifecycleModel {
    pub started: bool,
    pub slots: Seq<PlaybackSlot>,
    pub finished: Seq<i64>,
    pub completed: Seq<i64>,
}

impl LifecycleModel {
    pub open spec fn wf(self) -> bool {
        &&& increasing(slot_handles(self.slots))
        &&& increasing(self.finished)
        &&& increasing(self.completed)
    }
}

/// Handles that finished (`finished`) and were removed (`removed`) since the
/// last report, each in increasing order.
pub struct PlaybackTransitions {
    pub finished: Vec<i64>,
    pub removed: Vec<i64>,
}

pub struct PlaybackLifecycle {
    started: bool,
    slots: Vec<PlaybackSlot>,
    finished: Vec<i64>,
    completed: Vec<i64>,
}

impl View for PlaybackLifecycle {
    type V = LifecycleModel;

    closed spec fn view(&self) -> LifecycleModel {
        LifecycleModel {
            started: self.started,
            slots: self.slots@,
            finished: self.finished@,
            completed: self.completed@,
        }
    }
}

/// Inserts a handle into an increasing vector, keeping it increasing.
fn insert_sorted(v: &mut Vec<i64>, x: i64)
    requires
        increasing(old(v)@),
    ensures
        increasing(final(v)@),
        forall|y: i64| final(v)@.contains(y) <==> (old(v)@.contains(y) || y == x),
{
    let mut k: usize = 0;
    while k < v.len() && v[k] < x
        invariant
            v@ == old(v)@,
            0 <= k <= v@.len(),
            forall|j: int| 0 <= j < k ==> v@[j] < x,
        decreases v@.len() - k,
    {
        k = k + 1;
    }
    if k < v.len() && v[k] == x {
        return;
    }
    let ghost before = v@;
    v.insert(k, x);
    proof {
        assert(v@ =~= before.subrange(0, k as int).push(x) + before.subrange(k as int, before.len() as int));
        assert forall|i: int, j: int| 0 <= i < j < v@.len() implies v@[i] < v@[j] by {
            if j < k {
            } else if j == k {
            } else if i < k {
                assert(v@[j] == before[j - 1]);
                assert(before[i] < before[j - 1] || i == j - 1);
            } else if i == k {
                assert(v@[j] == before[j - 1]);
                assert(before[k as int] > x);
                assert(before[k as int] <= before[j - 1]);
            } else {
                assert(v@[i] == before[i - 1]);
                assert(v@[j] == before[j - 1]);
            }
        }
        assert forall|y: i64| v@.contains(y) <==> (before.contains(y) || y == x) by {
            if v@.contains(y) {
                let i = choose|i: int| 0 <= i < v@.len() && v@[i] == y;
                if i < k {
                    assert(before[i] == y);
                } else if i > k {
                    assert(before[i - 1] == y);
                }
            }
            if before.contains(y) {
                let i = choose|i: int| 0 <= i < before.len() && before[i] == y;
                if i < k {
                    assert(v@[i] == y);
                } else {
                    assert(v@[i + 1] == y);
                }
            }
            if y == x {
                assert(v@[k as int] == x);
            }
        }
        assert(before == old(v)@);
        assert(forall|y: i64| v@.contains(y) <==> (old(v)@.contains(y) || y == x));
    }
}

impl PlaybackLifecycle {
    pub fn new() -> (lifecycle: Self)
        ensures
            lifecycle@.wf(),
            !lifecycle@.started,
            lifecycle@.slots.len() == 0,
            lifecycle@.finished.len() == 0,
            lifecycle@.completed.len() == 0,
    {
        PlaybackLifecycle {
            started: false,
            slots: Vec::new(),
            finished: Vec::new(),
            completed: Vec::new(),
        }
    }

    pub fn started(&self) -> (started: bool)
        ensures
            started == self@.started,
    {
        self.started
    }

    /// The instances to mix, in handle order.
    pub fn slots(&self) -> (slots: &Vec<PlaybackSlot>)
        ensures
            slots@ == self@.slots,
    {
        &self.slots
    }

    /// Start of a block: instances that finished earlier leave the mixer and
    /// are recorded as removed.
    pub fn retire_finished(&mut self)
        requires
            old(self)@.wf(),
        ensures
            final(self)@.wf(),
            retired(old(self)@, final(self)@),
    {
        let ghost slots = self.slots@;
        let mut kept: Vec<PlaybackSlot> = Vec::new();
        let mut k: usize = 0;
        while k < self.slots.len()
            invariant
                self.slots@ == slots,
                self.started == old(self).started,
                self.finished@ == old(self).finished@,
                old(self)@.wf(),
                slots == old(self)@.slots,
                0 <= k <= slots.len(),
                kept@ == unfinished(slots.take(k as int)),
                increasing(self.completed@),
                forall|i: int| 0 <= i < kept@.len() ==> exists|j: int| 0 <= j < k && #[trigger] kept@[i] == slots[j],
                forall|h: i64|
                    self.completed@.contains(h) <==> (old(self)@.completed.contains(h)
                        || finished_slot(slots.take(k as int), h)),
            decreases slots.len() - k,
        {
            let slot = self.slots[k];
            proof {
                assert(slots.take(k + 1).drop_last() =~= slots.take(k as int));
            }
            if slot.finished {
                insert_sorted(&mut self.completed, slot.handle);
            } else {
                kept.push(slot);
            }
            proof {
                lemma_finished_slot_step(slots, k as int);
            }
            k = k + 1;
        }
        assert(slots.take(k as int) =~= slots);
        proof {
            assert forall|i: int, j: int|
                0 <= i < j < kept@.len() implies slot_handles(kept@)[i] < slot_handles(kept@)[j] by {
                lemma_unfinished_order(slots, i, j);
            }
        }
        self.slots = kept;
    }

    /// A block's mixing found that an instance reached its end.
    pub fn mark_finished(&mut self, index: usize)
        requires
            old(self)@.wf(),
            index < old(self)@.slots.len(),
        ensures
            final(self)@.wf(),
            final(self)@ == (LifecycleModel {
                slots: old(self)@.slots.update(
                    index as int,
                    PlaybackSlot { finished: true, ..old(self)@.slots[index as int] },
                ),
                ..old(self)@
            }),
    {
        let mut slot = self.slots[index];
        slot.finished = true;
        self.slots.set(index, slot);
        assert(slot_handles(self.slots@) =~= slot_handles(old(self).slots@));
    }

    /// End of a mixed block: instances that finished are published.
    pub fn publish_finished(&mut self)
        requires
            old(self)@.wf(),
        ensures
            final(self)@.wf(),
            published(old(self)@, final(self)@),
    {
        let ghost slots = self.slots@;
        let mut k: usize = 0;
        while k < self.slots.len()
            invariant
                self.slots@ == slots,
                slots == old(self)@.slots,
                self.started == old(self).started,
                self.completed@ == old(self).completed@,
                old(self)@.wf(),
                0 <= k <= slots.len(),
                increasing(self.finished@),
                forall|h: i64|
                    self.finished@.contains(h) <==> (old(self)@.finished.contains(h)
                        || finished_slot(slots.take(k as int), h)),
            decreases slots.len() - k,
        {
            let slot = self.slots[k];
            if slot.finished {
                insert_sorted(&mut self.finished, slot.handle);
            }
            proof {
                lemma_finished_slot_step(slots, k as int);
            }
            k = k + 1;
        }
        assert(slots.take(k as int) =~= slots);
    }

    /// Reports and clears the edges recorded since the last report.
    pub fn take_transitions(&mut self) -> (transitions: PlaybackTransitions)
        requires
            old(self)@.wf(),
        ensures
            final(self)@.wf(),
            transitions.finished@ == old(self)@.finished,
            transitions.removed@ == old(self)@.completed,
            final(self)@ == (LifecycleModel {
                finished: Seq::empty(),
                completed: Seq::empty(),
                ..old(self)@
            }),
    {
        let mut finished = Vec::new();
        std::mem::swap(&mut finished, &mut self.finished);
        let mut removed = Vec::new();
        std::mem::swap(&mut removed, &mut self.completed);
        PlaybackTransitions { finished, removed }
    }
}

fn live_contains(live: &[LivePlayback], handle: i64) -> (found: bool)
    ensures
        found == is_live(live@, handle),
{
    let mut i: usize = 0;
    while i < live.len()
        invariant
            0 <= i <= live@.len(),
            forall|j: int| 0 <= j < i ==> live@[j].handle != handle,
        decreases live@.len() - i,
    {
        if live[i].handle == handle {
            return true;
        }
        i = i + 1;
    }
    false
}

fn refresh(slot: PlaybackSlot, live: &[LivePlayback]) -> (updated: PlaybackSlot)
    ensures
        updated == refreshed(slot, live@),
{
    let mut updated = slot;
    let mut i: usize = 0;
    while i < live.len()
        invariant
            0 <= i <= live@.len(),
            updated == refreshed(slot, live@.take(i as int)),
        decreases live@.len() - i,
    {
        let entry = live[i];
        proof {
            assert(live@.take(i + 1).drop_last() =~= live@.take(i as int));
        }
        if entry.handle == updated.handle {
            updated = PlaybackSlot {
                looping: entry.looping,
                track: entry.track,
                finished: updated.finished || entry.finished,
                ..updated
            };
        }
        i = i + 1;
        proof {
            lemma_refreshed_handle(slot, live@.take(i - 1));
        }
    }
    assert(live@.take(i as int) =~= live@);
    updated
}

fn vec_contains(v: &Vec<i64>, x: i64) -> (found: bool)
    ensures
        found == v@.contains(x),
{
    let mut i: usize = 0;
    while i < v.len()
        invariant
            0 <= i <= v@.len(),
            forall|j: int| 0 <= j < i ==> v@[j] != x,
        decreases v@.len() - i,
    {
        if v[i] == x {
            return true;
        }
        i = i + 1;
    }
    false
}

fn slots_contain(slots: &Vec<PlaybackSlot>, handle: i64) -> (found: bool)
    ensures
        found == has_slot(slots@, handle),
{
    let mut i: usize = 0;
    while i < slots.len()
        invariant
            0 <= i <= slots@.len(),
            forall|j: int| 0 <= j < i ==> slots@[j].handle != handle,
        decreases slots@.len() - i,
    {
        if slots[i].handle == handle {
            return true;
        }
        i = i + 1;
    }
    false
}

proof fn lemma_refreshed_handle(slot: PlaybackSlot, live: Seq<LivePlayback>)
    ensures
        refreshed(slot, live).handle == slot.handle,
    decreases live.len(),
{
    if live.len() > 0 {
        lemma_refreshed_handle(slot, live.drop_last());
    }
}

proof fn lemma_reconciled_from(slots: Seq<PlaybackSlot>, live: Seq<LivePlayback>, i: int)
    requires
        0 <= i < reconciled(slots, live).len(),
    ensures
        exists|k: int|
            0 <= k < slots.len() && #[trigger] reconciled(slots, live)[i].handle == slots[k].handle
                && is_live(live, slots[k].handle),
    decreases slots.len(),
{
    let init = slots.drop_last();
    let rest = reconciled(init, live);
    if i < rest.len() {
        lemma_reconciled_from(init, live, i);
        let k = choose|k: int|
            0 <= k < init.len() && #[trigger] rest[i].handle == init[k].handle && is_live(
                live,
                init[k].handle,
            );
        assert(slots[k] == init[k]);
    } else {
        lemma_refreshed_handle(slots.last(), live);
        assert(reconciled(slots, live)[i] == refreshed(slots.last(), live));
        assert(reconciled(slots, live)[i].handle == slots[slots.len() - 1].handle);
    }
}

proof fn lemma_reconciled_order(slots: Seq<PlaybackSlot>, live: Seq<LivePlayback>, i: int, j: int)
    requires
        increasing(slot_handles(slots)),
        0 <= i < j < reconciled(slots, live).len(),
    ensures
        reconciled(slots, live)[i].handle < reconciled(slots, live)[j].handle,
    decreases slots.len(),
{
    let init = slots.drop_last();
    assert(increasing(slot_handles(init))) by {
        assert forall|a: int, b: int| 0 <= a < b < init.len() implies slot_handles(init)[a]
            < slot_handles(init)[b] by {
            assert(slot_handles(slots)[a] < slot_handles(slots)[b]);
        }
    }
    let rest = reconciled(init, live);
    if !is_live(live, slots.last().handle) || j < rest.len() {
        lemma_reconciled_order(init, live, i, j);
    } else {
        lemma_reconciled_from(init, live, i);
        let k = choose|k: int|
            0 <= k < init.len() && #[trigger] rest[i].handle == init[k].handle && is_live(
                live,
                init[k].handle,
            );
        lemma_refreshed_handle(slots.last(), live);
        assert(slot_handles(slots)[k] < slot_handles(slots)[slots.len() - 1]);
    }
}

/// Reconciliation keeps exactly the instances that are both played and still
/// live; it never starts one by itself.
pub proof fn law_reconciliation_keeps_live_instances(
    slots: Seq<PlaybackSlot>,
    live: Seq<LivePlayback>,
    h: i64,
)
    ensures
        has_slot(reconciled(slots, live), h) <==> (has_slot(slots, h) && is_live(live, h)),
    decreases slots.len(),
{
    if slots.len() > 0 {
        let init = slots.drop_last();
        law_reconciliation_keeps_live_instances(init, live, h);
        lemma_refreshed_handle(slots.last(), live);
        let rest = reconciled(init, live);
        if has_slot(reconciled(slots, live), h) {
            let i = choose|i: int|
                0 <= i < reconciled(slots, live).len() && reconciled(slots, live)[i].handle == h;
            lemma_reconciled_from(slots, live, i);
        }
        if has_slot(slots, h) && is_live(live, h) {
            let k = choose|k: int| 0 <= k < slots.len() && slots[k].handle == h;
            if k < init.len() {
                assert(init[k] == slots[k]);
                let i = choose|i: int| 0 <= i < rest.len() && rest[i].handle == h;
                assert(reconciled(slots, live)[i] == rest[i]);
            } else {
                assert(reconciled(slots, live)[rest.len() as int] == refreshed(slots.last(), live));
            }
        }
    }
}

impl PlaybackLifecycle {
    /// Reconciles the mixer with the script's instance list. The recorded
    /// edges are handed back; instances that are no longer live leave the
    /// mixer and live ones are refreshed; the indices of the live entries
    /// that the mixer neither plays nor has just removed are returned, in
    /// order, for decoding.
    pub fn reconcile(&mut self, started: bool, live: &[LivePlayback]) -> (r: (
        PlaybackTransitions,
        Vec<usize>,
    ))
        requires
            old(self)@.wf(),
        ensures
            final(self)@.wf(),
            final(self)@ == (LifecycleModel {
                started,
                slots: reconciled(old(self)@.slots, live@),
                finished: Seq::empty(),
                completed: Seq::empty(),
            }),
            r.0.finished@ == old(self)@.finished,
            r.0.removed@ == old(self)@.completed,
            forall|a: int, b: int| 0 <= a < b < r.1@.len() ==> r.1@[a] < r.1@[b],
            forall|k: usize|
                r.1@.contains(k) <==> (k < live@.len() && !old(self)@.completed.contains(
                    live@[k as int].handle,
                ) && !has_slot(reconciled(old(self)@.slots, live@), live@[k as int].handle)),
    {
        self.started = started;
        let transitions = self.take_transitions();
        let ghost slots = self.slots@;
        let mut kept: Vec<PlaybackSlot> = Vec::new();
        let mut k: usize = 0;
        while k < self.slots.len()
            invariant
                self.slots@ == slots,
                0 <= k <= slots.len(),
                kept@ == reconciled(slots.take(k as int), live@),
            decreases slots.len() - k,
        {
            let slot = self.slots[k];
            proof {
                assert(slots.take(k + 1).drop_last() =~= slots.take(k as int));
            }
            if live_contains(live, slot.handle) {
                kept.push(refresh(slot, live));
            }
            k = k + 1;
        }
        assert(slots.take(k as int) =~= slots);
        proof {
            assert forall|i: int, j: int|
                0 <= i < j < kept@.len() implies slot_handles(kept@)[i] < slot_handles(kept@)[j] by {
                lemma_reconciled_order(slots, live@, i, j);
            }
        }
        self.slots = kept;
        let mut missing: Vec<usize> = Vec::new();
        let mut i: usize = 0;
        while i < live.len()
            invariant
                0 <= i <= live@.len(),
                self.slots@ == reconciled(slots, live@),
                transitions.removed@ == old(self)@.completed,
                forall|a: int, b: int| 0 <= a < b < missing@.len() ==> missing@[a] < missing@[b],
                forall|a: int| 0 <= a < missing@.len() ==> missing@[a] < i,
                forall|m: usize|
                    missing@.contains(m) <==> (m < i && !old(self)@.completed.contains(
                        live@[m as int].handle,
                    ) && !has_slot(reconciled(slots, live@), live@[m as int].handle)),
            decreases live@.len() - i,
        {
            let handle = live[i].handle;
            let ghost before = missing@;
            let absent = !vec_contains(&transitions.removed, handle) && !slots_contain(
                &self.slots,
                handle,
            );
            if absent {
                missing.push(i);
            }
            proof {
                assert forall|m: usize| missing@.contains(m) <==> (m < i + 1
                    && !old(self)@.completed.contains(live@[m as int].handle) && !has_slot(
                    reconciled(slots, live@),
                    live@[m as int].handle,
                )) by {
                    if missing@.contains(m) {
                        let a = choose|a: int| 0 <= a < missing@.len() && missing@[a] == m;
                        if a < before.len() {
                            assert(before.contains(m));
                        }
                    }
                    if m < i && !old(self)@.completed.contains(live@[m as int].handle) && !has_slot(
                        reconciled(slots, live@),
                        live@[m as int].handle,
                    ) {
                        assert(before.contains(m));
                        let a = choose|a: int| 0 <= a < before.len() && before[a] == m;
                        assert(missing@[a] == m);
                    }
                    if m == i && absent {
                        assert(missing@[before.len() as int] == m);
                    }
                }
            }
            i = i + 1;
        }
        (transitions, missing)
    }

    /// Takes in a decoded live entry. An entry that is no longer live, or
    /// already played, changes nothing. Otherwise it joins the mixer when its
    /// clip decoded or when it loops (a looping instance without a playable
    /// clip stays, silent, instead of ending); any other entry is finished
    /// and removed at once.
    pub fn accept_decoded(
        &mut self,
        transitions: &mut PlaybackTransitions,
        live: &[LivePlayback],
        entry: LivePlayback,
        decoded: bool,
    ) -> (joined: bool)
        requires
            old(self)@.wf(),
            increasing(old(transitions).finished@),
            increasing(old(transitions).removed@),
        ensures
            final(self)@.wf(),
            increasing(final(transitions).finished@),
            increasing(final(transitions).removed@),
            final(self)@.started == old(self)@.started,
            final(self)@.finished == old(self)@.finished,
            final(self)@.completed == old(self)@.completed,
            !is_live(live@, entry.handle) || has_slot(old(self)@.slots, entry.handle) ==> !joined
                && final(self)@ == old(self)@ && final(transitions).finished@ == old(
                transitions,
            ).finished@ && final(transitions).removed@ == old(transitions).removed@,
            is_live(live@, entry.handle) && !has_slot(old(self)@.slots, entry.handle) && (decoded
                || entry.looping) ==> joined && final(transitions).finished@ == old(
                transitions,
            ).finished@ && final(transitions).removed@ == old(transitions).removed@ && (forall|
                s: PlaybackSlot,
            |
                final(self)@.slots.contains(s) <==> (old(self)@.slots.contains(s) || s == (
                PlaybackSlot {
                    handle: entry.handle,
                    looping: entry.looping,
                    track: entry.track,
                    finished: entry.finished,
                }))),
            is_live(live@, entry.handle) && !has_slot(old(self)@.slots, entry.handle) && !decoded
                && !entry.looping ==> !joined && final(self)@ == old(self)@ && (forall|h: i64|
                final(transitions).finished@.contains(h) <==> (old(transitions).finished@.contains(
                    h,
                ) || h == entry.handle)) && (forall|h: i64|
                final(transitions).removed@.contains(h) <==> (old(transitions).removed@.contains(h)
                    || h == entry.handle)),
    {
        if !live_contains(live, entry.handle) || slots_contain(&self.slots, entry.handle) {
            return false;
        }
        if decoded || entry.looping {
            let slot = PlaybackSlot {
                handle: entry.handle,
                looping: entry.looping,
                track: entry.track,
                finished: entry.finished,
            };
            self.insert_slot(slot);
            true
        } else {
            insert_sorted(&mut transitions.finished, entry.handle);
            insert_sorted(&mut transitions.removed, entry.handle);
            false
        }
    }

    /// Inserts a slot for a handle the mixer does not play, in handle order.
    fn insert_slot(&mut self, slot: PlaybackSlot)
        requires
            old(self)@.wf(),
            !has_slot(old(self)@.slots, slot.handle),
        ensures
            final(self)@.wf(),
            final(self)@.started == old(self)@.started,
            final(self)@.finished == old(self)@.finished,
            final(self)@.completed == old(self)@.completed,
            forall|s: PlaybackSlot|
                final(self)@.slots.contains(s) <==> (old(self)@.slots.contains(s) || s == slot),
    {
        let ghost before = self.slots@;
        let mut k: usize = 0;
        while k < self.slots.len() && self.slots[k].handle < slot.handle
            invariant
                self.slots@ == before,
                0 <= k <= before.len(),
                forall|j: int| 0 <= j < k ==> before[j].handle < slot.handle,
            decreases before.len() - k,
        {
            k = k + 1;
        }
        self.slots.insert(k, slot);
        proof {
            let after = self.slots@;
            assert(after =~= before.subrange(0, k as int).push(slot) + before.subrange(
                k as int,
                before.len() as int,
            ));
            if k < before.len() {
                assert(before[k as int].handle != slot.handle);
            }
            assert forall|i: int, j: int|
                0 <= i < j < after.len() implies slot_handles(after)[i] < slot_handles(after)[j] by {
                if j < k {
                    assert(slot_handles(before)[i] < slot_handles(before)[j]);
                } else if j == k {
                } else if i < k {
                    assert(after[j] == before[j - 1]);
                    if i < j - 1 {
                        assert(slot_handles(before)[i] < slot_handles(before)[j - 1]);
                    }
                } else if i == k {
                    assert(after[j] == before[j - 1]);
                    assert(before[k as int].handle > slot.handle);
                    if k < j - 1 {
                        assert(slot_handles(before)[k as int] < slot_handles(before)[j - 1]);
                    }
                } else {
                    assert(after[i] == before[i - 1]);
                    assert(after[j] == before[j - 1]);
                    assert(slot_handles(before)[i - 1] < slot_handles(before)[j - 1]);
                }
            }
            assert forall|s: PlaybackSlot| after.contains(s) <==> (before.contains(s) || s == slot) by {
                if after.contains(s) {
                    let i = choose|i: int| 0 <= i < after.len() && after[i] == s;
                    if i < k {
                        assert(before[i] == s);
                    } else if i > k {
                        assert(before[i - 1] == s);
                    }
                }
                if before.contains(s) {
                    let i = choose|i: int| 0 <= i < before.len() && before[i] == s;
                    if i < k {
                        assert(after[i] == s);
                    } else {
                        assert(after[i + 1] == s);
                    }
                }
                if s == slot {
                    assert(after[k as int] == slot);
                }
            }
        }
    }
}

proof fn lemma_unfinished_has(slots: Seq<PlaybackSlot>, h: i64)
    ensures
        has_slot(unfinished(slots), h) ==> exists|k: int|
            0 <= k < slots.len() && slots[k].handle == h && !slots[k].finished,
    decreases slots.len(),
{
    if slots.len() > 0 {
        let init = slots.drop_last();
        lemma_unfinished_has(init, h);
        if has_slot(unfinished(slots), h) {
            let rest = unfinished(init);
            let i = choose|i: int| 0 <= i < unfinished(slots).len() && unfinished(slots)[i].handle == h;
            if i < rest.len() {
                assert(has_slot(rest, h));
                let k = choose|k: int| 0 <= k < init.len() && init[k].handle == h && !init[k].finished;
                assert(slots[k] == init[k]);
            } else {
                assert(unfinished(slots)[i] == slots[slots.len() - 1]);
            }
        }
    }
}

/// An instance that ends while a block is mixed is reported finished at the
/// end of that block while it is still in the mixer, and removed (and
/// reported removed) at the start of the next block, never earlier.
pub proof fn law_finish_is_published_before_removal(
    mixed: LifecycleModel,
    after_block: LifecycleModel,
    next_block: LifecycleModel,
    handle: i64,
)
    requires
        mixed.wf(),
        published(mixed, after_block),
        retired(after_block, next_block),
        finished_slot(mixed.slots, handle),
    ensures
        after_block.finished.contains(handle),
        has_slot(after_block.slots, handle),
        !has_slot(next_block.slots, handle),
        next_block.completed.contains(handle),
{
    let k = choose|k: int|
        0 <= k < mixed.slots.len() && mixed.slots[k].handle == handle && mixed.slots[k].finished;
    assert(has_slot(after_block.slots, handle));
    lemma_unfinished_has(after_block.slots, handle);
    if has_slot(next_block.slots, handle) {
        let j = choose|j: int|
            0 <= j < after_block.slots.len() && after_block.slots[j].handle == handle
                && !after_block.slots[j].finished;
        if j < k {
            assert(slot_handles(mixed.slots)[j] < slot_handles(mixed.slots)[k]);
        } else if k < j {
            assert(slot_handles(mixed.slots)[k] < slot_handles(mixed.slots)[j]);
        }
    }
}

proof fn lemma_finished_slot_step(slots: Seq<PlaybackSlot>, k: int)
    requires
        0 <= k < slots.len(),
    ensures
        forall|h: i64|
            #![trigger finished_slot(slots.take(k + 1), h)]
            finished_slot(slots.take(k + 1), h) <==> (finished_slot(slots.take(k), h) || (
            slots[k].finished && slots[k].handle == h)),
{
    let before = slots.take(k);
    let after = slots.take(k + 1);
    assert forall|h: i64| finished_slot(after, h) <==> (finished_slot(before, h) || (
    slots[k].finished && slots[k].handle == h)) by {
        if finished_slot(after, h) {
            let i = choose|i: int| 0 <= i < after.len() && after[i].handle == h && after[i].finished;
            if i < k {
                assert(before[i] == after[i]);
            }
        }
        if finished_slot(before, h) {
            let i = choose|i: int| 0 <= i < before.len() && before[i].handle == h && before[i].finished;
            assert(after[i] == before[i]);
        }
        if slots[k].finished && slots[k].handle == h {
            assert(after[k] == slots[k]);
        }
    }
}

proof fn lemma_unfinished_order(slots: Seq<PlaybackSlot>, i: int, j: int)
    requires
        increasing(slot_handles(slots)),
        0 <= i < j < unfinished(slots).len(),
    ensures
        unfinished(slots)[i].handle < unfinished(slots)[j].handle,
    decreases slots.len(),
{
    let init = slots.drop_last();
    assert(increasing(slot_handles(init))) by {
        assert forall|a: int, b: int| 0 <= a < b < init.len() implies slot_handles(init)[a]
            < slot_handles(init)[b] by {
            assert(slot_handles(slots)[a] < slot_handles(slots)[b]);
        }
    }
    let rest = unfinished(init);
    if slots.last().finished {
        lemma_unfinished_order(init, i, j);
    } else if j < rest.len() {
        lemma_unfinished_order(init, i, j);
    } else {
        lemma_unfinished_from(init, i);
        let k = choose|k: int| 0 <= k < init.len() && rest[i] == init[k];
        assert(slot_handles(slots)[k] < slot_handles(slots)[slots.len() - 1]);
    }
}

proof fn lemma_unfinished_from(slots: Seq<PlaybackSlot>, i: int)
    requires
        0 <= i < unfinished(slots).len(),
    ensures
        exists|k: int| 0 <= k < slots.len() && unfinished(slots)[i] == slots[k],
    decreases slots.len(),
{
    let init = slots.drop_last();
    let rest = unfinished(init);
    if i < rest.len() {
        lemma_unfinished_from(init, i);
        let k = choose|k: int| 0 <= k < init.len() && rest[i] == init[k];
        assert(slots[k] == init[k]);
    } else {
        assert(unfinished(slots)[i] == slots[slots.len() - 1]);
    }
}

} // verus!
