//! Maps an iSCSI TargetName (IQN) to the client's SCSI target.
use vstd::prelude::*;
use crate::iscsi::scsi;
use crate::iscsi::scsi::{ScsiOutcome, ScsiTarget};
use crate::iscsi::ScsiCommand;
use crate::storage::BackingStore;
use crate::text;
use crate::volume::OverlayStore;

verus! {

/// A target and how many connections hold it.
pub struct TargetSlot<M, O> {
    pub target: ScsiTarget<M, O>,
    /// A count that has reached its maximum stays there: such a target is
    /// never dropped.
    pub holders: u64,
}

/// Registry of targets by TargetName. A name leads to one target at a time;
/// registering another target under it leaves the earlier one to the
/// connections that hold it, until the last of them releases it.
pub struct TargetRegistry<M, O> {
    /// Names in the order they were first registered, each with the place of
    /// its target.
    pub names: Vec<(String, usize)>,
    pub slots: Vec<Option<TargetSlot<M, O>>>,
}

/// One more holder.
pub open spec fn held_once_more(holders: u64) -> u64 {
    if holders == u64::MAX {
        holders
    } else {
        (holders + 1) as u64
    }
}

/// One holder less.
pub open spec fn held_once_less(holders: u64) -> u64 {
    if holders == u64::MAX || holders == 0 {
        holders
    } else {
        (holders - 1) as u64
    }
}

impl<M: BackingStore, O: OverlayStore> TargetRegistry<M, O> {
    /// `iqn` is registered, for the target at `id`.
    pub open spec fn named(&self, iqn: Seq<char>, id: usize) -> bool {
        exists|i: int| #![trigger self.names@[i]]
            0 <= i < self.names@.len() && self.names@[i].0@ == iqn && self.names@[i].1 == id
    }

    /// `iqn` is registered.
    pub open spec fn registered(&self, iqn: Seq<char>) -> bool {
        exists|i: int| #![trigger self.names@[i]]
            0 <= i < self.names@.len() && self.names@[i].0@ == iqn
    }

    /// There is a target at `id`.
    pub open spec fn present(&self, id: usize) -> bool {
        id < self.slots@.len() && self.slots@[id as int] is Some
    }

    /// There is a target at `id` and a connection holds it.
    pub open spec fn held(&self, id: usize) -> bool {
        self.present(id) && self.slots@[id as int]->0.holders > 0
    }

    /// Some name leads to the target at `id`.
    pub open spec fn reachable(&self, id: usize) -> bool {
        exists|i: int| 0 <= i < self.names@.len() && (#[trigger] self.names@[i]).1 == id
    }

    /// Names are distinct and lead to distinct well-formed targets, and a
    /// target is kept only while a name leads to it or a connection holds it.
    pub open spec fn wf(&self) -> bool {
        &&& forall|i: int, j: int| #![trigger self.names@[i], self.names@[j]]
            0 <= i < j < self.names@.len() ==> {
                &&& self.names@[i].0@ != self.names@[j].0@
                &&& self.names@[i].1 != self.names@[j].1
            }
        &&& forall|i: int| 0 <= i < self.names@.len() ==> self.present(
            (#[trigger] self.names@[i]).1,
        )
        &&& forall|k: int| 0 <= k < self.slots@.len() && self.slots@[k] is Some ==> {
            &&& (#[trigger] self.slots@[k])->0.target.wf()
            &&& self.held(k as usize) || self.reachable(k as usize)
        }
    }

    /// This registry is `before` with `target` registered under `iqn`, in a
    /// place of its own. Other names keep their targets, and a target that
    /// had the name stays only for the connections that hold it.
    pub open spec fn registers(
        &self,
        before: &Self,
        iqn: Seq<char>,
        target: ScsiTarget<M, O>,
    ) -> bool {
        &&& exists|id: usize| #[trigger]
            self.named(iqn, id) && !before.present(id) && self.present(id)
                && self.slots@[id as int]->0 == (TargetSlot { target, holders: 0 })
        &&& forall|other: Seq<char>, id: usize| #![trigger self.named(other, id)]
            other != iqn ==> self.named(other, id) == before.named(other, id)
        &&& forall|id: usize| #![trigger self.present(id)]
            before.present(id) && (before.held(id) || !before.named(iqn, id)) ==> self.present(id)
                && self.slots@[id as int] == before.slots@[id as int]
    }

    /// An empty registry.
    pub fn new() -> (r: Self)
        ensures
            r.wf(),
            r.names@.len() == 0,
            r.slots@.len() == 0,
    {
        TargetRegistry { names: Vec::new(), slots: Vec::new() }
    }

    /// Place of `iqn` among the names.
    fn position(&self, iqn: &str) -> (r: Option<usize>)
        ensures
            r matches Some(i) ==> i < self.names@.len() && self.names@[i as int].0@ == iqn@,
            r is None ==> !self.registered(iqn@),
    {
        let mut i: usize = 0;
        while i < self.names.len()
            invariant
                i <= self.names@.len(),
                forall|j: int| 0 <= j < i ==> (#[trigger] self.names@[j]).0@ != iqn@,
            decreases self.names@.len() - i,
        {
            if text::same_text(self.names[i].0.as_str(), iqn) {
                return Some(i);
            }
            i += 1;
        }
        None
    }

    /// First place without a target.
    fn vacancy(&self) -> (k: usize)
        ensures
            k <= self.slots@.len(),
            k < self.slots@.len() ==> self.slots@[k as int] is None,
    {
        let mut k: usize = 0;
        while k < self.slots.len()
            invariant
                k <= self.slots@.len(),
            decreases self.slots@.len() - k,
        {
            if self.slots[k].is_none() {
                return k;
            }
            k += 1;
        }
        k
    }

    /// Register a target under its IQN. A target that had the name is dropped
    /// unless a connection holds it.
    pub fn insert(&mut self, iqn: &str, target: ScsiTarget<M, O>)
        requires
            old(self).wf(),
            target.wf(),
        ensures
            final(self).wf(),
            final(self).registers(old(self), iqn@, target),
    {
        let id: usize = self.vacancy();
        let slot = TargetSlot { target, holders: 0 };
        if id < self.slots.len() {
            self.slots.set(id, Some(slot));
        } else {
            self.slots.push(Some(slot));
        }
        assert(forall|k: int|
            0 <= k < old(self).slots@.len() && k != id ==> self.slots@[k] == old(self).slots@[k]);
        let ghost mut place: int = self.names@.len() as int;
        match self.position(iqn) {
            Some(i) => {
                proof {
                    place = i as int;
                }
                let earlier: usize = self.names[i].1;
                assert(old(self).named(iqn@, earlier));
                self.names.set(i, (String::from_str(iqn), id));
                let idle = match &self.slots[earlier] {
                    Some(s) => s.holders == 0,
                    None => false,
                };
                if idle {
                    self.slots.set(earlier, None);
                }
            },
            None => {
                self.names.push((String::from_str(iqn), id));
            },
        }
        proof {
            assert(self.names@[place].0@ == iqn@ && self.names@[place].1 == id);
            assert(forall|j: int| 0 <= j < self.names@.len() && j != place ==> j < old(self).names@.len() && self.names@[j] == #[trigger] old(self).names@[j]);
            assert(self.named(iqn@, id));
            assert forall|other: Seq<char>, k: usize| #![trigger self.named(other, k)]
                other != iqn@ implies self.named(other, k) == old(self).named(other, k) by {
                if old(self).named(other, k) {
                    let j = choose|j: int| #![trigger old(self).names@[j]] 0 <= j < old(self).names@.len() && old(self).names@[j].0@ == other && old(self).names@[j].1 == k;
                    assert(self.names@[j].0@ == other);
                }
                if self.named(other, k) {
                    let j = choose|j: int| #![trigger self.names@[j]] 0 <= j < self.names@.len() && self.names@[j].0@ == other && self.names@[j].1 == k;
                    assert(old(self).names@[j].0@ == other);
                }
            }
        }
    }

    /// Resolve a TargetName to the place of its target, if registered.
    pub fn get(&self, iqn: &str) -> (r: Option<usize>)
        requires
            self.wf(),
        ensures
            r matches Some(id) ==> self.named(iqn@, id) && self.present(id),
            r is None ==> !self.registered(iqn@),
    {
        match self.position(iqn) {
            Some(i) => Some(self.names[i].1),
            None => None,
        }
    }

    /// Resolve a TargetName and hold its target.
    pub fn acquire(&mut self, iqn: &str) -> (r: Option<usize>)
        requires
            old(self).wf(),
        ensures
            final(self).wf(),
            final(self).names@ == old(self).names@,
            match r {
                None => !old(self).registered(iqn@) && final(self).slots@ == old(self).slots@,
                Some(id) => {
                    &&& old(self).named(iqn@, id)
                    &&& old(self).present(id)
                    &&& final(self).held(id)
                    &&& final(self).slots@ == old(self).slots@.update(
                        id as int,
                        Some(
                            TargetSlot {
                                target: old(self).slots@[id as int]->0.target,
                                holders: held_once_more(old(self).slots@[id as int]->0.holders),
                            },
                        ),
                    )
                },
            },
    {
        let id: usize = match self.get(iqn) {
            Some(id) => id,
            None => {
                return None;
            },
        };
        match &mut self.slots[id] {
            Some(slot) => {
                if slot.holders < u64::MAX {
                    slot.holders = slot.holders + 1;
                }
            },
            None => {},
        }
        proof {
            assert(self.slots@ =~= old(self).slots@.update(
                id as int,
                Some(
                    TargetSlot {
                        target: old(self).slots@[id as int]->0.target,
                        holders: held_once_more(old(self).slots@[id as int]->0.holders),
                    },
                ),
            ));
            self.same_names_same_reach(old(self));
        }
        Some(id)
    }

    /// Which targets names lead to depends on the names alone.
    proof fn same_names_same_reach(&self, before: &Self)
        requires
            self.names@ == before.names@,
        ensures
            forall|id: usize| #[trigger] self.reachable(id) == before.reachable(id),
            forall|iqn: Seq<char>, id: usize| #[trigger]
                self.named(iqn, id) == before.named(iqn, id),
    {
    }

    /// This registry is `before` with one hold of the target at `id` given up: a
    /// target that nothing leads to any more is gone, any other has one holder
    /// less.
    pub open spec fn released(&self, before: &Self, id: usize) -> bool {
        let slot = before.slots@[id as int]->0;
        let left = held_once_less(slot.holders);
        &&& self.names@ == before.names@
        &&& self.slots@ == before.slots@.update(
            id as int,
            if left == 0 && !before.reachable(id) {
                None
            } else {
                Some(TargetSlot { target: slot.target, holders: left })
            },
        )
    }

    /// Give up one hold of the target at `id`, dropping a target that nothing
    /// leads to any more.
    pub fn release(&mut self, id: usize)
        requires
            old(self).wf(),
            old(self).held(id),
        ensures
            final(self).wf(),
            final(self).released(old(self), id),
    {
        let mut named = false;
        let mut i: usize = 0;
        while i < self.names.len()
            invariant
                i <= self.names@.len(),
                named ==> self.reachable(id),
                !named ==> forall|j: int| 0 <= j < i ==> (#[trigger] self.names@[j]).1 != id,
            decreases self.names@.len() - i,
        {
            if self.names[i].1 == id {
                named = true;
            }
            i += 1;
        }
        assert(named == self.reachable(id));
        let mut left: u64 = 0;
        match &mut self.slots[id] {
            Some(slot) => {
                if slot.holders < u64::MAX {
                    slot.holders = slot.holders - 1;
                }
                left = slot.holders;
            },
            None => {},
        }
        if left == 0 && !named {
            self.slots.set(id, None);
        }
        proof {
            self.same_names_same_reach(old(self));
            assert(self.slots@ =~= old(self).slots@.update(id as int, self.slots@[id as int]));
            assert forall|i: int| 0 <= i < self.names@.len() implies self.present(
                (#[trigger] self.names@[i]).1,
            ) by {
                assert(old(self).present(old(self).names@[i].1));
                assert(old(self).reachable(old(self).names@[i].1));
            }
            assert forall|k: int| 0 <= k < self.slots@.len() && self.slots@[k] is Some implies {
                &&& (#[trigger] self.slots@[k])->0.target.wf()
                &&& self.held(k as usize) || self.reachable(k as usize)
            } by {
                assert(self.slots@.len() == self.slots.len());
                assert(old(self).slots@[k] is Some);
                assert(old(self).slots@[k]->0.target.wf());
                assert(self.reachable(k as usize) == old(self).reachable(k as usize));
            }
        }
    }

    /// Execute a SCSI command on the target at `id`.
    pub fn execute(&mut self, id: usize, cmd: &ScsiCommand, write_data: &[u8]) -> (out: ScsiOutcome)
        requires
            old(self).wf(),
            old(self).present(id),
        ensures
            final(self).wf(),
            final(self).executed(old(self), id, cmd.lun, cmd.cdb@, write_data@, out@),
    {
        let out = match &mut self.slots[id] {
            Some(slot) => slot.target.execute(cmd, write_data),
            None => ScsiOutcome::ok(),
        };
        proof {
            self.same_names_same_reach(old(self));
            assert(self.slots@ =~= old(self).slots@.update(id as int, self.slots@[id as int]));
        }
        out
    }

    /// Only the target at `id` may differ from `before`, by the execution of a
    /// command whose outcome is `out`.
    pub open spec fn executed(
        &self,
        before: &Self,
        id: usize,
        lun: u64,
        cdb: Seq<u8>,
        payload: Seq<u8>,
        out: scsi::OutcomeView,
    ) -> bool {
        &&& self.names@ == before.names@
        &&& self.present(id)
        &&& self.slots@ == before.slots@.update(id as int, self.slots@[id as int])
        &&& self.slots@[id as int]->0.holders == before.slots@[id as int]->0.holders
        &&& self.slots@[id as int]->0.target.executed(
            &before.slots@[id as int]->0.target,
            lun,
            cdb,
            payload,
            out,
        )
    }

    /// The registered names, in the order they were first registered.
    pub fn iqns(&self) -> (out: Vec<String>)
        ensures
            out@.len() == self.names@.len(),
            forall|i: int| 0 <= i < out@.len() ==> (#[trigger] out@[i])@ == self.names@[i].0@,
    {
        let mut out: Vec<String> = Vec::new();
        let mut i: usize = 0;
        while i < self.names.len()
            invariant
                i <= self.names@.len(),
                out@.len() == i,
                forall|j: int| 0 <= j < i ==> (#[trigger] out@[j])@ == self.names@[j].0@,
            decreases self.names@.len() - i,
        {
            out.push(self.names[i].0.clone());
            i += 1;
        }
        out
    }
}

/// A hold given up is one holder less. The target goes when the last holder lets
/// go of one that no name leads to, and stays otherwise, as it was; other
/// targets and the names are untouched. A count that ran full stays full.
pub proof fn last_holder_lets_go<M: BackingStore, O: OverlayStore>(
    before: &TargetRegistry<M, O>,
    after: &TargetRegistry<M, O>,
    id: usize,
)
    requires
        before.held(id),
        after.released(before, id),
    ensures
        after.names@ == before.names@,
        after.slots@.len() == before.slots@.len(),
        forall|k: int|
            0 <= k < before.slots@.len() && k != id ==> #[trigger] after.slots@[k]
                == before.slots@[k],
        before.slots@[id as int]->0.holders == 1 && !before.reachable(id) ==> !after.present(id),
        before.slots@[id as int]->0.holders > 1 || before.reachable(id) ==> after.present(id)
            && after.slots@[id as int]->0.target == before.slots@[id as int]->0.target,
        after.present(id) && before.slots@[id as int]->0.holders < u64::MAX
            ==> after.slots@[id as int]->0.holders + 1 == before.slots@[id as int]->0.holders,
        after.present(id) && before.slots@[id as int]->0.holders == u64::MAX
            ==> after.slots@[id as int]->0.holders == u64::MAX,
{
}

/// A name leads to the target that was registered under it last, which nobody
/// holds yet. Every other name leads where it led, and a target that is held
/// stays as it is, whether a name still leads to it or not.
pub proof fn name_leads_to_the_last_registered<M: BackingStore, O: OverlayStore>(
    before: &TargetRegistry<M, O>,
    after: &TargetRegistry<M, O>,
    iqn: Seq<char>,
    target: ScsiTarget<M, O>,
    other: Seq<char>,
    id: usize,
)
    requires
        before.wf(),
        after.wf(),
        after.registers(before, iqn, target),
    ensures
        after.registered(iqn),
        after.named(iqn, id) ==> after.present(id) && after.slots@[id as int]->0.target == target
            && after.slots@[id as int]->0.holders == 0 && !before.present(id),
        other != iqn ==> (after.named(other, id) <==> before.named(other, id)),
        before.held(id) ==> after.present(id) && after.slots@[id as int]
            == before.slots@[id as int],
{
    let new = choose|n: usize| #[trigger]
        after.named(iqn, n) && !before.present(n) && after.present(n) && after.slots@[n as int]->0
            == (TargetSlot { target, holders: 0 });
    let i = choose|i: int|
        #![trigger after.names@[i]]
        0 <= i < after.names@.len() && after.names@[i].0@ == iqn && after.names@[i].1 == new;
    if after.named(iqn, id) {
        let j = choose|j: int|
            #![trigger after.names@[j]]
            0 <= j < after.names@.len() && after.names@[j].0@ == iqn && after.names@[j].1 == id;
        if i < j || j < i {
            assert(after.names@[i].0@ != after.names@[j].0@);
        }
    }
    if before.held(id) {
        assert(after.present(id));
    }
}

} // verus!
