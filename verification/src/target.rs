//! Targets: named sets of slots with their own settings.

use vstd::prelude::*;

use crate::envfile::EnvMap;
use crate::text::copy_all;

verus! {

/// A target: the slots that it uses, and what it adds to the settings of each.
pub struct TargetSpec {
    pub name: String,
    pub slots: Vec<String>,
    pub overrides: Vec<String>,
    pub env: EnvMap,
}

/// A target, over mathematical values.
pub struct TargetModel {
    pub name: Seq<char>,
    pub slots: Seq<Seq<char>>,
    pub overrides: Seq<Seq<char>>,
    pub env: Map<Seq<char>, Seq<char>>,
}

impl View for TargetSpec {
    type V = TargetModel;

    open spec fn view(&self) -> TargetModel {
        TargetModel {
            name: self.name@,
            slots: crate::text::texts(self.slots@),
            overrides: crate::text::texts(self.overrides@),
            env: crate::envfile::env_of(self.env),
        }
    }
}

/// The view of an optional target.
pub open spec fn opt_target(target: Option<TargetSpec>) -> Option<TargetModel> {
    match target {
        Some(found) => Some(found@),
        None => None,
    }
}

/// The slots of a target: its own, or all in rotation where it names none.
pub open spec fn slots_of(target: Option<TargetModel>, rotation: Seq<Seq<char>>) -> Seq<Seq<char>> {
    match target {
        Some(found) => if found.slots.len() == 0 {
            rotation
        } else {
            found.slots
        },
        None => rotation,
    }
}

/// The slots that a run may choose from.
pub fn slots_or_rotation(target: &Option<TargetSpec>, rotation: &Vec<String>) -> (out: Vec<String>)
    ensures
        crate::text::texts(out@) == slots_of(opt_target(*target), crate::text::texts(rotation@)),
{
    match target {
        Some(found) => {
            proof {
                assert(crate::text::texts(found.slots@).len() == found.slots@.len());
            }
            if found.slots.len() > 0 {
                return copy_all(&found.slots);
            }
        },
        None => {},
    }
    copy_all(rotation)
}

/// A run of a target chooses among the target's own slots where it names any, and among
/// those in rotation where it does not.
pub proof fn targets_limit_their_slots(target: TargetModel, rotation: Seq<Seq<char>>)
    ensures
        target.slots.len() > 0 ==> slots_of(Some(target), rotation) == target.slots,
        target.slots.len() == 0 ==> slots_of(Some(target), rotation) == rotation,
        slots_of(None, rotation) == rotation,
{
}

} // verus!
