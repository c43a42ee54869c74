//! The files of a world that do not belong to a region.

use vstd::prelude::*;

verus! {

/// One step of copying a world skeleton from a tile to the final world.
#[derive(Clone, Copy, Debug, PartialEq, Eq, Structural)]
pub enum SkeletonStep {
    CopyLevel,
    CopyIcon,
    CopyDatapacks,
    CreateRegionDir,
}

impl SkeletonStep {
    /// The file or directory that a step is about.
    pub open spec fn target(self) -> Seq<char> {
        match self {
            SkeletonStep::CopyLevel => "level.dat"@,
            SkeletonStep::CopyIcon => "icon.png"@,
            SkeletonStep::CopyDatapacks => "datapacks"@,
            SkeletonStep::CreateRegionDir => "region"@,
        }
    }

    /// The name of the file or directory that a step is about.
    pub fn name(&self) -> (r: &'static str)
        ensures
            r@ == self.target(),
    {
        match self {
            SkeletonStep::CopyLevel => "level.dat",
            SkeletonStep::CopyIcon => "icon.png",
            SkeletonStep::CopyDatapacks => "datapacks",
            SkeletonStep::CreateRegionDir => "region",
        }
    }
}

/// The step alone where its source exists.
pub open spec fn step_if(exists_in_tile: bool, step: SkeletonStep) -> Seq<SkeletonStep> {
    if exists_in_tile {
        seq![step]
    } else {
        Seq::empty()
    }
}

/// Lists the steps for a tile that has some of the files: what is there is copied, in this order,
/// and the region directory is created in any case.
pub fn copy_world_skeleton(has_level: bool, has_icon: bool, has_datapacks: bool) -> (r: Vec<
    SkeletonStep,
>)
    ensures
        r@ == step_if(has_level, SkeletonStep::CopyLevel) + step_if(
            has_icon,
            SkeletonStep::CopyIcon,
        ) + step_if(has_datapacks, SkeletonStep::CopyDatapacks) + seq![
            SkeletonStep::CreateRegionDir,
        ],
        r@.contains(SkeletonStep::CopyLevel) <==> has_level,
        r@.contains(SkeletonStep::CopyIcon) <==> has_icon,
        r@.contains(SkeletonStep::CopyDatapacks) <==> has_datapacks,
        has_level ==> r@[0] == SkeletonStep::CopyLevel,
        has_icon ==> r@[if has_level {
            1
        } else {
            0
        }] == SkeletonStep::CopyIcon,
        has_datapacks ==> r@[r@.len() - 2] == SkeletonStep::CopyDatapacks,
        r@.last() == SkeletonStep::CreateRegionDir,
        r@.no_duplicates(),
{
    let mut steps: Vec<SkeletonStep> = Vec::new();
    if has_level {
        steps.push(SkeletonStep::CopyLevel);
    }
    if has_icon {
        steps.push(SkeletonStep::CopyIcon);
    }
    if has_datapacks {
        steps.push(SkeletonStep::CopyDatapacks);
    }
    steps.push(SkeletonStep::CreateRegionDir);
    proof {
        assert(steps@ =~= step_if(has_level, SkeletonStep::CopyLevel) + step_if(
            has_icon,
            SkeletonStep::CopyIcon,
        ) + step_if(has_datapacks, SkeletonStep::CopyDatapacks) + seq![
            SkeletonStep::CreateRegionDir,
        ]);
        let n = steps@.len();
        if has_level {
            assert(steps@[0] == SkeletonStep::CopyLevel);
        }
        if has_icon {
            assert(steps@[if has_level {
                1int
            } else {
                0int
            }] == SkeletonStep::CopyIcon);
        }
        if has_datapacks {
            assert(steps@[n - 2] == SkeletonStep::CopyDatapacks);
        }
    }
    steps
}

} // verus!
