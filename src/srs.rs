//! Provisioning of the structured reference string: how large it must be,
//! and the order of the staging steps that place it in the deployment targets.
use vstd::prelude::*;

verus! {

/// The subgroup size requested when no circuit is given: enough for about a
/// million constraints, the scale of circuits that run on a mobile device.
pub const DEFAULT_SUBGROUP_SIZE: u64 = 1048576;

/// A power of two: one, or twice a power of two.
pub open spec fn is_power_of_two(p: nat) -> bool
    decreases p,
{
    if p <= 1 {
        p == 1
    } else {
        p % 2 == 0 && is_power_of_two(p / 2)
    }
}

proof fn lemma_power_of_two_below(p: nat, q: nat)
    requires
        is_power_of_two(p),
        is_power_of_two(q),
        p < q,
    ensures
        p <= q / 2,
    decreases q,
{
    if q / 2 > 1 && p > 1 {
        lemma_power_of_two_below(p / 2, q / 2);
    }
}

/// The subgroup size for a circuit of `constraints` constraints: the smallest
/// power of two that is at least `constraints`.
pub fn subgroup_size_for(constraints: u32) -> (r: u64)
    ensures
        is_power_of_two(r as nat),
        constraints <= r,
        forall|p: nat| #[trigger] is_power_of_two(p) && constraints <= p ==> r <= p,
{
    let mut p: u64 = 1;
    while p < constraints as u64
        invariant
            is_power_of_two(p as nat),
            1 <= p <= 0x2_0000_0000,
            p == 1 || p / 2 < constraints,
        decreases 0x2_0000_0000 - p,
    {
        assert((2 * p) / 2 == p);
        p = p * 2;
    }
    assert forall|q: nat| #[trigger] is_power_of_two(q) && constraints <= q implies p <= q by {
        if q < p {
            lemma_power_of_two_below(q, p as nat);
        }
    }
    p
}

/// The subgroup size to request: the one a circuit's constraint count calls
/// for, or the default when no circuit is given.
pub fn requested_subgroup_size(constraints: Option<u32>) -> (r: u64)
    ensures
        constraints is None ==> r == DEFAULT_SUBGROUP_SIZE,
        constraints is Some ==> {
            &&& is_power_of_two(r as nat)
            &&& constraints->Some_0 <= r
            &&& forall|p: nat| #[trigger] is_power_of_two(p) && constraints->Some_0 <= p ==> r <= p
        },
{
    match constraints {
        Some(n) => subgroup_size_for(n),
        None => DEFAULT_SUBGROUP_SIZE,
    }
}

/// The next step of staging.
#[derive(Clone, Copy, Debug, PartialEq, Eq, Structural)]
pub enum StagingAction {
    /// Copy the transient file to the deployment target of this position.
    CopyTo(usize),
    /// Delete the transient file.
    RemoveTransient,
    /// Nothing is left to do.
    Finished,
}

/// The transient file could not be deleted: the run must fail, since a
/// leftover file could be packaged by mistake.
#[derive(Clone, Copy, Debug, PartialEq, Eq, Structural)]
pub enum StagingError {
    RemovalFailed,
}

/// What staging has done so far: the outcome of each copy, in target order,
/// and whether the transient file has been dealt with.
#[derive(Clone, Debug, PartialEq, Eq)]
pub struct Staging {
    pub targets: usize,
    pub copied: Vec<bool>,
    pub removal_done: bool,
}

/// The step that follows from the number of targets, the copies made so far
/// and whether removal has been attempted.
pub open spec fn next_step(targets: nat, copies_made: nat, removal_done: bool) -> StagingAction {
    if copies_made < targets {
        StagingAction::CopyTo(copies_made as usize)
    } else if !removal_done {
        StagingAction::RemoveTransient
    } else {
        StagingAction::Finished
    }
}

impl Staging {
    /// Copies made never outnumber the targets, and removal comes after every copy.
    pub open spec fn wf(&self) -> bool {
        &&& self.copied@.len() <= self.targets
        &&& self.removal_done ==> self.copied@.len() == self.targets
    }

    /// The step this state calls for.
    pub open spec fn next_spec(&self) -> StagingAction {
        next_step(self.targets as nat, self.copied@.len(), self.removal_done)
    }

    /// Staging for this many deployment targets, before any step.
    pub fn new(targets: usize) -> (r: Staging)
        ensures
            r.wf(),
            r.targets == targets,
            r.copied@ == Seq::<bool>::empty(),
            !r.removal_done,
    {
        Staging { targets, copied: Vec::new(), removal_done: false }
    }

    /// The next step to perform.
    pub fn next_action(&self) -> (r: StagingAction)
        requires
            self.wf(),
        ensures
            r == self.next_spec(),
    {
        if self.copied.len() < self.targets {
            StagingAction::CopyTo(self.copied.len())
        } else if !self.removal_done {
            StagingAction::RemoveTransient
        } else {
            StagingAction::Finished
        }
    }

    /// Records the outcome of the copy that `next_action` asked for; a failed
    /// copy is recorded and staging goes on with the next target.
    pub fn record_copy(&mut self, succeeded: bool)
        requires
            old(self).wf(),
            old(self).next_spec() is CopyTo,
        ensures
            final(self).wf(),
            final(self).targets == old(self).targets,
            final(self).copied@ == old(self).copied@.push(succeeded),
            final(self).removal_done == old(self).removal_done,
    {
        self.copied.push(succeeded);
    }

    /// Records the outcome of deleting the transient file; a failed deletion
    /// fails the run.
    pub fn record_removal(&mut self, succeeded: bool) -> (r: Result<(), StagingError>)
        requires
            old(self).wf(),
            old(self).next_spec() == StagingAction::RemoveTransient,
        ensures
            final(self).wf(),
            final(self).targets == old(self).targets,
            final(self).copied@ == old(self).copied@,
            final(self).removal_done,
            r is Ok <==> succeeded,
            r is Err ==> r == Err::<(), StagingError>(StagingError::RemovalFailed),
    {
        self.removal_done = true;
        if succeeded {
            Ok(())
        } else {
            Err(StagingError::RemovalFailed)
        }
    }

    /// The positions of the targets whose copy failed, in order.
    pub fn failed_targets(&self) -> (r: Vec<usize>)
        ensures
            forall|i: int| 0 <= i < r@.len() ==> (#[trigger] r@[i] as int) < self.copied@.len()
                && !self.copied@[r@[i] as int],
            forall|j: int| 0 <= j < self.copied@.len() && !self.copied@[j] ==> r@.contains(j as usize),
            forall|i: int, k: int| 0 <= i < k < r@.len() ==> r@[i] < r@[k],
    {
        let mut r: Vec<usize> = Vec::new();
        let mut j: usize = 0;
        while j < self.copied.len()
            invariant
                j <= self.copied@.len(),
                forall|i: int| 0 <= i < r@.len() ==> (#[trigger] r@[i] as int) < j
                    && !self.copied@[r@[i] as int],
                forall|t: int| 0 <= t < j && !self.copied@[t] ==> r@.contains(t as usize),
                forall|i: int, k: int| 0 <= i < k < r@.len() ==> r@[i] < r@[k],
            decreases self.copied@.len() - j,
        {
            let ghost before = r@;
            if !self.copied[j] {
                r.push(j);
            }
            assert forall|t: int| 0 <= t < j + 1 && !self.copied@[t] implies r@.contains(
                t as usize,
            ) by {
                if t < j {
                    let k = choose|k: int| 0 <= k < before.len() && before[k] == t as usize;
                    assert(r@[k] == t as usize);
                } else {
                    assert(r@[r@.len() - 1] == j);
                }
            }
            j = j + 1;
        }
        r
    }
}

/// Staging never stops at a failed copy: whatever the outcomes so far, the
/// next step is the copy to the next target, and once every target has been
/// tried, the deletion of the transient file.
pub proof fn lemma_copy_failure_continues(s: Staging)
    requires
        s.wf(),
        s.next_spec() is CopyTo,
    ensures
        ({
            let after = next_step(s.targets as nat, s.copied@.len() + 1, s.removal_done);
            &&& s.copied@.len() + 1 < s.targets ==> after == StagingAction::CopyTo(
                (s.copied@.len() + 1) as usize,
            )
            &&& s.copied@.len() + 1 == s.targets ==> after == StagingAction::RemoveTransient
        }),
{
}

/// From the start, the first steps are the copies to each target in order,
/// then the deletion of the transient file, whatever the copies' outcomes.
pub proof fn lemma_staging_order(targets: nat, outcomes: Seq<bool>)
    requires
        outcomes.len() <= targets,
    ensures
        outcomes.len() < targets ==> next_step(targets, outcomes.len(), false)
            == StagingAction::CopyTo(outcomes.len() as usize),
        outcomes.len() == targets ==> next_step(targets, outcomes.len(), false)
            == StagingAction::RemoveTransient,
{
}

} // verus!
