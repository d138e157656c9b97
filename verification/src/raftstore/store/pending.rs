//! The commands that a leader has proposed and not yet seen applied.

use std::collections::HashSet;
use std::collections::VecDeque;
use vstd::prelude::*;

verus! {

broadcast use vstd::std_specs::hash::group_hash_axioms;

/// A proposed command that waits for its entry to be applied: which
/// command it is, the term at which it was proposed, and the callback that
/// resolves the client.
#[derive(Debug)]
pub struct PendingCmd<C> {
    pub uuid: u128,
    pub term: u64,
    pub cb: C,
}

/// The pending commands of one peer. Data commands wait in the order in
/// which they were proposed; at most one change of membership waits beside
/// them. `uuids` holds the uuid of every command that waits.
pub struct PendingCmdQueue<C> {
    pub normals: VecDeque<PendingCmd<C>>,
    pub conf_change: Option<PendingCmd<C>>,
    pub uuids: HashSet<u128>,
}

/// Whether a command with uuid `uuid` waits among `normals` or as
/// `conf_change`.
pub open spec fn is_pending<C>(
    normals: Seq<PendingCmd<C>>,
    conf_change: Option<PendingCmd<C>>,
    uuid: u128,
) -> bool {
    (exists|i: int| 0 <= i < normals.len() && #[trigger] normals[i].uuid == uuid) || (
    conf_change matches Some(c) && c.uuid == uuid)
}

/// Whether no uuid waits twice.
pub open spec fn uuids_distinct<C>(
    normals: Seq<PendingCmd<C>>,
    conf_change: Option<PendingCmd<C>>,
) -> bool {
    &&& forall|i: int, j: int|
        0 <= i < j < normals.len() ==> (#[trigger] normals[i]).uuid != (#[trigger] normals[j]).uuid
    &&& conf_change matches Some(c) ==> forall|i: int|
        0 <= i < normals.len() ==> (#[trigger] normals[i]).uuid != c.uuid
}

/// How many commands at the front of `normals` were proposed at or before
/// `term` and are not the command `uuid`: the commands that the entry of
/// `uuid` at `term` supersedes.
pub open spec fn superseded_count<C>(normals: Seq<PendingCmd<C>>, uuid: u128, term: u64) -> nat
    decreases normals.len(),
{
    if normals.len() == 0 || normals[0].term > term || normals[0].uuid == uuid {
        0
    } else {
        1 + superseded_count(normals.drop_first(), uuid, term)
    }
}

/// Whether the command `uuid` waits right behind the commands that its
/// entry at `term` supersedes.
pub open spec fn found_behind_superseded<C>(
    normals: Seq<PendingCmd<C>>,
    uuid: u128,
    term: u64,
) -> bool {
    let n = superseded_count(normals, uuid, term) as int;
    n < normals.len() && normals[n].term <= term && normals[n].uuid == uuid
}

/// `superseded_count` stays within the queue.
pub proof fn lemma_superseded_count_bound<C>(normals: Seq<PendingCmd<C>>, uuid: u128, term: u64)
    ensures
        superseded_count(normals, uuid, term) <= normals.len(),
    decreases normals.len(),
{
    if !(normals.len() == 0 || normals[0].term > term || normals[0].uuid == uuid) {
        lemma_superseded_count_bound(normals.drop_first(), uuid, term);
    }
}

impl<C> PendingCmdQueue<C> {
    /// The representation invariant: `uuids` holds exactly the uuids that
    /// wait, and none waits twice.
    pub open spec fn wf(&self) -> bool {
        &&& uuids_distinct(self.normals@, self.conf_change)
        &&& forall|u: u128|
            self.uuids@.contains(u) <==> is_pending(self.normals@, self.conf_change, u)
    }

    /// A queue in which nothing waits.
    pub fn new() -> (q: PendingCmdQueue<C>)
        ensures
            q.wf(),
            q.normals@ == Seq::<PendingCmd<C>>::empty(),
            q.conf_change is None,
    {
        PendingCmdQueue { normals: VecDeque::new(), conf_change: None, uuids: HashSet::new() }
    }

    /// Whether a command with this uuid waits.
    pub fn contains(&self, uuid: &u128) -> (b: bool)
        requires
            self.wf(),
        ensures
            b == is_pending(self.normals@, self.conf_change, *uuid),
    {
        self.uuids.contains(uuid)
    }

    /// Takes the oldest data command out if it was proposed at or before
    /// `term`.
    pub fn pop_normal(&mut self, term: u64) -> (r: Option<PendingCmd<C>>)
        requires
            old(self).wf(),
        ensures
            final(self).wf(),
            final(self).conf_change == old(self).conf_change,
            old(self).normals@.len() > 0 && old(self).normals@[0].term <= term ==> r == Some(
                old(self).normals@[0],
            ) && final(self).normals@ == old(self).normals@.drop_first(),
            !(old(self).normals@.len() > 0 && old(self).normals@[0].term <= term) ==> r is None
                && final(self).normals@ == old(self).normals@ && final(self).uuids@ == old(self).uuids@,
    {
        match self.normals.pop_front() {
            None => None,
            Some(cmd) => {
                if cmd.term > term {
                    self.normals.push_front(cmd);
                    assert(self.normals@ =~= old(self).normals@);
                    return None;
                }
                self.uuids.remove(&cmd.uuid);
                proof {
                    let before = old(self).normals@;
                    let after = self.normals@;
                    assert(after =~= before.drop_first());
                    assert forall|i: int, j: int| 0 <= i < j < after.len() implies (
                    #[trigger] after[i]).uuid != (#[trigger] after[j]).uuid by {
                        assert(after[i] == before[i + 1] && after[j] == before[j + 1]);
                    }
                    assert forall|u: u128|
                        self.uuids@.contains(u) <==> is_pending(after, self.conf_change, u) by {
                        if is_pending(after, self.conf_change, u) {
                            if exists|i: int| 0 <= i < after.len() && #[trigger] after[i].uuid == u {
                                let i = choose|i: int|
                                    0 <= i < after.len() && #[trigger] after[i].uuid == u;
                                assert(before[i + 1].uuid == u);
                                assert(before[0].uuid != before[i + 1].uuid);
                            } else {
                                assert(before[0].uuid != self.conf_change->0.uuid);
                            }
                            assert(is_pending(before, self.conf_change, u));
                        }
                        if self.uuids@.contains(u) {
                            assert(is_pending(before, self.conf_change, u));
                            if exists|i: int| 0 <= i < before.len() && #[trigger] before[i].uuid == u {
                                let i = choose|i: int|
                                    0 <= i < before.len() && #[trigger] before[i].uuid == u;
                                assert(after[i - 1].uuid == u);
                            }
                        }
                    }
                    if self.conf_change is Some {
                        assert forall|i: int| 0 <= i < after.len() implies (
                        #[trigger] after[i]).uuid != self.conf_change->0.uuid by {
                            assert(after[i] == before[i + 1]);
                        }
                    }
                }
                Some(cmd)
            },
        }
    }

    /// Puts a data command behind those that wait.
    pub fn append_normal(&mut self, cmd: PendingCmd<C>)
        requires
            old(self).wf(),
            !is_pending(old(self).normals@, old(self).conf_change, cmd.uuid),
        ensures
            final(self).wf(),
            final(self).normals@ == old(self).normals@.push(cmd),
            final(self).conf_change == old(self).conf_change,
    {
        self.uuids.insert(cmd.uuid);
        let ghost uuid = cmd.uuid;
        self.normals.push_back(cmd);
        proof {
            let before = old(self).normals@;
            let after = self.normals@;
            assert forall|u: u128|
                self.uuids@.contains(u) <==> is_pending(after, self.conf_change, u) by {
                if is_pending(before, self.conf_change, u) {
                    if exists|i: int| 0 <= i < before.len() && #[trigger] before[i].uuid == u {
                        let i = choose|i: int|
                            0 <= i < before.len() && #[trigger] before[i].uuid == u;
                        assert(after[i].uuid == u);
                    }
                }
                if u == uuid {
                    assert(after[before.len() as int].uuid == u);
                }
                if is_pending(after, self.conf_change, u) && u != uuid {
                    if exists|i: int| 0 <= i < after.len() && #[trigger] after[i].uuid == u {
                        let i = choose|i: int| 0 <= i < after.len() && #[trigger] after[i].uuid == u;
                        assert(before[i].uuid == u);
                    }
                }
            }
            assert forall|i: int, j: int| 0 <= i < j < after.len() implies (
            #[trigger] after[i]).uuid != (#[trigger] after[j]).uuid by {
                if j < before.len() {
                    assert(after[i] == before[i] && after[j] == before[j]);
                } else {
                    assert(after[i] == before[i]);
                }
            }
            if self.conf_change is Some {
                assert forall|i: int| 0 <= i < after.len() implies (
                #[trigger] after[i]).uuid != self.conf_change->0.uuid by {
                    if i < before.len() {
                        assert(after[i] == before[i]);
                    }
                }
            }
        }
    }

    /// Takes the waiting change of membership out, if there is one.
    pub fn take_conf_change(&mut self) -> (r: Option<PendingCmd<C>>)
        requires
            old(self).wf(),
        ensures
            final(self).wf(),
            r == old(self).conf_change,
            final(self).conf_change is None,
            final(self).normals@ == old(self).normals@,
    {
        // conf change will not be effected when changing between follower and leader,
        // so there is no need to check term.
        let cmd = self.conf_change.take();
        if let Some(c) = &cmd {
            self.uuids.remove(&c.uuid);
        }
        cmd
    }

    /// Makes `cmd` the waiting change of membership.
    pub fn set_conf_change(&mut self, cmd: PendingCmd<C>)
        requires
            old(self).wf(),
            old(self).conf_change is None,
            !is_pending(old(self).normals@, old(self).conf_change, cmd.uuid),
        ensures
            final(self).wf(),
            final(self).conf_change == Some(cmd),
            final(self).normals@ == old(self).normals@,
    {
        self.uuids.insert(cmd.uuid);
        self.conf_change = Some(cmd);
    }
}

} // verus!
