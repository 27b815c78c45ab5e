//! Per-frame instanced render batching.
//!
//! Each frame, game code hands in draw requests keyed by model identity; the
//! batcher accumulates, per model, the ordered list of instance transforms
//! (and, for skinned models, a fixed-size bone block per instance). Clearing
//! empties the per-model lists but keeps the groups themselves, so the
//! platform layer can reuse its per-model GPU buffers across frames. The
//! instance and bone payloads are opaque type parameters here; the platform
//! layer instantiates them with its GPU-ready structs.

use crate::assets::ModelRef;
use vstd::prelude::*;

verus! {

/// Bone entries appended per skinned instance: shorter rigs are padded, longer
/// ones truncated, so every instance spans exactly one block of this size.
pub const BONE_MAX: usize = 128;

/// The draw requests accumulated for one model.
pub struct Group<T> {
    pub model: ModelRef,
    pub instances: Vec<T>,
}

/// The draw requests accumulated for one skinned model: one bone block of
/// `BONE_MAX` entries per instance.
pub struct AnimGroup<T, B> {
    pub model: ModelRef,
    pub instances: Vec<T>,
    pub bones: Vec<B>,
}

/// The per-frame batching collection: one group per distinct model.
pub struct InstanceGroups<T, B> {
    pub static_groups: Vec<Group<T>>,
    pub anim_groups: Vec<AnimGroup<T, B>>,
}

/// Does the group list already hold a group for this model?
pub open spec fn has_group<T>(groups: Seq<Group<T>>, mr: ModelRef) -> bool {
    exists|a: int| 0 <= a < groups.len() && groups[a].model == mr
}

/// Does the skinned group list already hold a group for this model?
pub open spec fn has_anim_group<T, B>(groups: Seq<AnimGroup<T, B>>, mr: ModelRef) -> bool {
    exists|a: int| 0 <= a < groups.len() && groups[a].model == mr
}

/// The bone block one skinned draw request appends: the given bones in order,
/// padded with `pad` (or truncated) to exactly `BONE_MAX` entries.
pub open spec fn bone_block<B>(bones: Seq<B>, pad: B) -> Seq<B> {
    Seq::new(BONE_MAX as nat, |k: int| if k < bones.len() { bones[k] } else { pad })
}

impl<T, B: Copy> InstanceGroups<T, B> {
    /// Each model has at most one group of either kind.
    pub open spec fn wf(self) -> bool {
        &&& forall|a: int, b: int|
            0 <= a < b < self.static_groups@.len() ==> (#[trigger] self.static_groups@[a]).model
                != (#[trigger] self.static_groups@[b]).model
        &&& forall|a: int, b: int|
            0 <= a < b < self.anim_groups@.len() ==> (#[trigger] self.anim_groups@[a]).model
                != (#[trigger] self.anim_groups@[b]).model
    }

    /// An empty batching collection.
    pub fn new() -> (r: Self)
        ensures
            r.wf(),
            r.static_groups@.len() == 0,
            r.anim_groups@.len() == 0,
    {
        InstanceGroups { static_groups: Vec::new(), anim_groups: Vec::new() }
    }

    /// Starts a new frame: empties every group's lists but keeps the groups,
    /// so per-model buffers can be reused.
    pub fn clear(&mut self)
        requires
            old(self).wf(),
        ensures
            final(self).wf(),
            final(self).static_groups@.len() == old(self).static_groups@.len(),
            forall|a: int|
                0 <= a < old(self).static_groups@.len() ==> (#[trigger] final(self).static_groups@[a]).model == old(self).static_groups@[a].model && final(self).static_groups@[a].instances@.len() == 0,
            final(self).anim_groups@.len() == old(self).anim_groups@.len(),
            forall|a: int|
                0 <= a < old(self).anim_groups@.len() ==> (#[trigger] final(self).anim_groups@[a]).model == old(self).anim_groups@[a].model && final(self).anim_groups@[a].instances@.len() == 0 && final(self).anim_groups@[a].bones@.len()
                    == 0,
    {
        let ghost g0 = *self;
        let mut a: usize = 0;
        while a < self.static_groups.len()
            invariant
                g0 == *old(self),
                a <= g0.static_groups@.len(),
                self.anim_groups@ == g0.anim_groups@,
                self.static_groups@.len() == g0.static_groups@.len(),
                forall|s: int|
                    0 <= s < g0.static_groups@.len() ==> (#[trigger] self.static_groups@[s]).model
                        == g0.static_groups@[s].model,
                forall|s: int|
                    0 <= s < a ==> (#[trigger] self.static_groups@[s]).instances@.len() == 0,
            decreases g0.static_groups@.len() - a,
        {
            self.static_groups[a].instances.clear();
            a += 1;
        }
        let mut a: usize = 0;
        while a < self.anim_groups.len()
            invariant
                g0 == *old(self),
                a <= g0.anim_groups@.len(),
                self.anim_groups@.len() == g0.anim_groups@.len(),
                self.static_groups@.len() == g0.static_groups@.len(),
                forall|s: int|
                    0 <= s < g0.static_groups@.len() ==> (#[trigger] self.static_groups@[s]).model
                        == g0.static_groups@[s].model,
                forall|s: int|
                    0 <= s < g0.static_groups@.len() ==> (#[trigger] self.static_groups@[s]).instances@.len()
                        == 0,
                forall|s: int|
                    0 <= s < g0.anim_groups@.len() ==> (#[trigger] self.anim_groups@[s]).model
                        == g0.anim_groups@[s].model,
                forall|s: int|
                    0 <= s < a ==> (#[trigger] self.anim_groups@[s]).instances@.len() == 0
                        && self.anim_groups@[s].bones@.len() == 0,
            decreases g0.anim_groups@.len() - a,
        {
            self.anim_groups[a].instances.clear();
            self.anim_groups[a].bones.clear();
            a += 1;
        }
    }

    /// Records one draw of the model with the given instance transform.
    pub fn render(&mut self, mr: ModelRef, ir: T)
        requires
            old(self).wf(),
        ensures
            final(self).wf(),
            final(self).anim_groups@ == old(self).anim_groups@,
            forall|a: int|
                0 <= a < old(self).static_groups@.len() && old(self).static_groups@[a].model != mr
                    ==> #[trigger] final(self).static_groups@[a] == old(self).static_groups@[a],
            has_group(old(self).static_groups@, mr) ==> final(self).static_groups@.len() == old(self).static_groups@.len(),
            forall|a: int|
                0 <= a < old(self).static_groups@.len() && old(self).static_groups@[a].model == mr
                    ==> (#[trigger] final(self).static_groups@[a]).model == mr && final(self).static_groups@[a].instances@ == old(self).static_groups@[a].instances@.push(ir),
            !has_group(old(self).static_groups@, mr) ==> {
                &&& final(self).static_groups@.len() == old(self).static_groups@.len() + 1
                &&& final(self).static_groups@.last().model == mr
                &&& final(self).static_groups@.last().instances@ == seq![ir]
            },
    {
        let mut irs: Vec<T> = Vec::new();
        irs.push(ir);
        proof {
            assert(irs@ =~= seq![ir]);
        }
        self.render_batch(mr, irs);
        proof {
            assert forall|a: int|
                0 <= a < old(self).static_groups@.len() && old(self).static_groups@[a].model
                    == mr implies (#[trigger] self.static_groups@[a]).model == mr
                && self.static_groups@[a].instances@ == old(self).static_groups@[a].instances@.push(
                ir,
            ) by {
                assert(self.static_groups@[a].instances@ =~= old(self).static_groups@[a].instances@.push(ir));
            }
        }
    }

    /// Records a batch of draws of the model: the transforms are appended, in
    /// order, to the model's per-frame list; a first draw of a model starts
    /// its group.
    pub fn render_batch(&mut self, mr: ModelRef, irs: Vec<T>)
        requires
            old(self).wf(),
        ensures
            final(self).wf(),
            final(self).anim_groups@ == old(self).anim_groups@,
            forall|a: int|
                0 <= a < old(self).static_groups@.len() && old(self).static_groups@[a].model != mr
                    ==> #[trigger] final(self).static_groups@[a] == old(self).static_groups@[a],
            has_group(old(self).static_groups@, mr) ==> final(self).static_groups@.len() == old(self).static_groups@.len(),
            forall|a: int|
                0 <= a < old(self).static_groups@.len() && old(self).static_groups@[a].model == mr
                    ==> (#[trigger] final(self).static_groups@[a]).model == mr && final(self).static_groups@[a].instances@ == old(self).static_groups@[a].instances@ + irs@,
            !has_group(old(self).static_groups@, mr) ==> {
                &&& final(self).static_groups@.len() == old(self).static_groups@.len() + 1
                &&& forall|a: int|
                    0 <= a < old(self).static_groups@.len() ==> #[trigger] final(self).static_groups@[a] == old(self).static_groups@[a]
                &&& final(self).static_groups@.last().model == mr
                &&& final(self).static_groups@.last().instances@ == irs@
            },
    {
        let ghost g0 = *self;
        let mut a: usize = 0;
        while a < self.static_groups.len()
            invariant
                g0 == *old(self),
                *self == g0,
                g0.wf(),
                a <= g0.static_groups@.len(),
                forall|s: int| 0 <= s < a ==> (#[trigger] g0.static_groups@[s]).model != mr,
            decreases g0.static_groups@.len() - a,
        {
            if self.static_groups[a].model == mr {
                let mut moved = irs;
                self.static_groups[a].instances.append(&mut moved);
                proof {
                    assert forall|s: int|
                        0 <= s < g0.static_groups@.len() && s != a as int implies #[trigger] self.static_groups@[s]
                        == g0.static_groups@[s] by {}
                    assert forall|s: int|
                        0 <= s < g0.static_groups@.len() && g0.static_groups@[s].model
                            == mr implies s == a as int by {
                        if s != a as int {
                            assert(g0.static_groups@[s].model != g0.static_groups@[a as int].model);
                        }
                    }
                    assert forall|x: int, y: int|
                        0 <= x < y < self.static_groups@.len() implies (
                        #[trigger] self.static_groups@[x]).model
                        != (#[trigger] self.static_groups@[y]).model by {
                        assert(self.static_groups@[x].model == g0.static_groups@[x].model);
                        assert(self.static_groups@[y].model == g0.static_groups@[y].model);
                    }
                }
                return;
            }
            a += 1;
        }
        self.static_groups.push(Group { model: mr, instances: irs });
    }

    /// Records one draw of a skinned model: one instance transform plus its
    /// rig's bones, padded with `pad` (or truncated) to `BONE_MAX` entries.
    pub fn render_anim(&mut self, mr: ModelRef, ir: T, bones: Vec<B>, pad: B)
        requires
            old(self).wf(),
        ensures
            final(self).wf(),
            final(self).static_groups@ == old(self).static_groups@,
            forall|a: int|
                0 <= a < old(self).anim_groups@.len() && old(self).anim_groups@[a].model != mr
                    ==> #[trigger] final(self).anim_groups@[a] == old(self).anim_groups@[a],
            has_anim_group(old(self).anim_groups@, mr) ==> final(self).anim_groups@.len() == old(self).anim_groups@.len(),
            forall|a: int|
                0 <= a < old(self).anim_groups@.len() && old(self).anim_groups@[a].model == mr ==> (
                #[trigger] final(self).anim_groups@[a]).model == mr && final(self).anim_groups@[a].instances@ == old(self).anim_groups@[a].instances@.push(ir)
                    && final(self).anim_groups@[a].bones@ == old(self).anim_groups@[a].bones@
                    + bone_block(bones@, pad),
            !has_anim_group(old(self).anim_groups@, mr) ==> {
                &&& final(self).anim_groups@.len() == old(self).anim_groups@.len() + 1
                &&& final(self).anim_groups@.last().model == mr
                &&& final(self).anim_groups@.last().instances@ == seq![ir]
                &&& final(self).anim_groups@.last().bones@ == bone_block(bones@, pad)
            },
    {
        let mut irs: Vec<T> = Vec::new();
        irs.push(ir);
        proof {
            assert(irs@ =~= seq![ir]);
        }
        self.render_anim_batch(mr, irs, bones, pad);
        proof {
            assert forall|a: int|
                0 <= a < old(self).anim_groups@.len() && old(self).anim_groups@[a].model
                    == mr implies (#[trigger] self.anim_groups@[a]).model == mr
                && self.anim_groups@[a].instances@ == old(self).anim_groups@[a].instances@.push(ir)
                && self.anim_groups@[a].bones@ == old(self).anim_groups@[a].bones@ + bone_block(
                bones@,
                pad,
            ) by {
                assert(self.anim_groups@[a].instances@ =~= old(self).anim_groups@[a].instances@.push(ir));
            }
        }
    }

    /// Records a batch of draws of a skinned model: the transforms are
    /// appended in order, together with one padded `BONE_MAX`-entry bone
    /// block; a first draw of a model starts its group.
    pub fn render_anim_batch(&mut self, mr: ModelRef, irs: Vec<T>, bones: Vec<B>, pad: B)
        requires
            old(self).wf(),
        ensures
            final(self).wf(),
            final(self).static_groups@ == old(self).static_groups@,
            forall|a: int|
                0 <= a < old(self).anim_groups@.len() && old(self).anim_groups@[a].model != mr
                    ==> #[trigger] final(self).anim_groups@[a] == old(self).anim_groups@[a],
            has_anim_group(old(self).anim_groups@, mr) ==> final(self).anim_groups@.len() == old(self).anim_groups@.len(),
            forall|a: int|
                0 <= a < old(self).anim_groups@.len() && old(self).anim_groups@[a].model == mr ==> (
                #[trigger] final(self).anim_groups@[a]).model == mr && final(self).anim_groups@[a].instances@ == old(self).anim_groups@[a].instances@ + irs@
                    && final(self).anim_groups@[a].bones@ == old(self).anim_groups@[a].bones@
                    + bone_block(bones@, pad),
            !has_anim_group(old(self).anim_groups@, mr) ==> {
                &&& final(self).anim_groups@.len() == old(self).anim_groups@.len() + 1
                &&& forall|a: int|
                    0 <= a < old(self).anim_groups@.len() ==> #[trigger] final(self).anim_groups@[a] == old(self).anim_groups@[a]
                &&& final(self).anim_groups@.last().model == mr
                &&& final(self).anim_groups@.last().instances@ == irs@
                &&& final(self).anim_groups@.last().bones@ == bone_block(bones@, pad)
            },
    {
        let mut padded: Vec<B> = Vec::new();
        let mut k: usize = 0;
        while k < BONE_MAX
            invariant
                k <= BONE_MAX,
                padded@.len() == k,
                forall|kk: int|
                    0 <= kk < k ==> #[trigger] padded@[kk] == (if kk < bones@.len() {
                        bones@[kk]
                    } else {
                        pad
                    }),
            decreases BONE_MAX - k,
        {
            if k < bones.len() {
                padded.push(bones[k]);
            } else {
                padded.push(pad);
            }
            k += 1;
        }
        proof {
            assert(padded@ =~= bone_block(bones@, pad));
        }
        let ghost g0 = *self;
        let mut a: usize = 0;
        while a < self.anim_groups.len()
            invariant
                g0 == *old(self),
                *self == g0,
                g0.wf(),
                padded@ == bone_block(bones@, pad),
                a <= g0.anim_groups@.len(),
                forall|s: int| 0 <= s < a ==> (#[trigger] g0.anim_groups@[s]).model != mr,
            decreases g0.anim_groups@.len() - a,
        {
            if self.anim_groups[a].model == mr {
                let mut moved = irs;
                let mut moved_bones = padded;
                self.anim_groups[a].instances.append(&mut moved);
                self.anim_groups[a].bones.append(&mut moved_bones);
                proof {
                    assert forall|s: int|
                        0 <= s < g0.anim_groups@.len() && s != a as int implies #[trigger] self.anim_groups@[s]
                        == g0.anim_groups@[s] by {}
                    assert forall|s: int|
                        0 <= s < g0.anim_groups@.len() && g0.anim_groups@[s].model == mr implies s
                        == a as int by {
                        if s != a as int {
                            assert(g0.anim_groups@[s].model != g0.anim_groups@[a as int].model);
                        }
                    }
                    assert forall|x: int, y: int|
                        0 <= x < y < self.anim_groups@.len() implies (
                        #[trigger] self.anim_groups@[x]).model
                        != (#[trigger] self.anim_groups@[y]).model by {
                        assert(self.anim_groups@[x].model == g0.anim_groups@[x].model);
                        assert(self.anim_groups@[y].model == g0.anim_groups@[y].model);
                    }
                }
                return;
            }
            a += 1;
        }
        self.anim_groups.push(AnimGroup { model: mr, instances: irs, bones: padded });
    }
}

} // verus!
