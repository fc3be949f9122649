//! Restoring a guest from a snapshot directory: the steps after the manifest
//! has been read, and how each of them fails.

use vstd::prelude::*;
use vstd::string::StringExecFns;

use crate::config::Os;
use crate::manifest::RestorePlan;
use crate::text::{decimal, decimal_of, join3};

verus! {

/// A step of a restore.
#[derive(Debug, Clone, Copy, PartialEq, Eq, Structural)]
pub enum RestoreStep {
    ReadManifest,
    ReadCheckpoint,
    OpenMemory,
    /// Find the length of the memory image.
    MeasureMemory,
    /// Map the memory image so that the guest can be forked again.
    PromoteMemory,
    /// Map the memory image copy-on-write.
    MapMemory,
    /// Read the memory image: a live mapping would keep the file from being
    /// removed.
    LoadMemory,
    ConnectGuardian,
    /// Create RAM whose pages the guardian supplies.
    CreatePagedMemory,
    /// Map the RAM of the frozen base copy-on-write.
    CowMapMemory,
}

/// How the memory image of a portable snapshot becomes RAM.
pub open spec fn image_step(os: Os, forkable: bool) -> RestoreStep {
    if os == Os::Windows {
        RestoreStep::LoadMemory
    } else if os == Os::Linux && forkable {
        RestoreStep::PromoteMemory
    } else {
        RestoreStep::MapMemory
    }
}

/// The steps of a plan.
pub open spec fn restore_steps(plan: RestorePlan, os: Os, forkable: bool) -> Seq<RestoreStep> {
    match plan {
        RestorePlan::Portable { .. } => seq![
            RestoreStep::ReadCheckpoint,
            RestoreStep::OpenMemory,
            RestoreStep::MeasureMemory,
            image_step(os, forkable),
        ],
        RestorePlan::Guardian(_) => seq![
            RestoreStep::ReadCheckpoint,
            RestoreStep::ConnectGuardian,
            RestoreStep::CreatePagedMemory,
        ],
        RestorePlan::Fork { .. } => seq![RestoreStep::ReadCheckpoint, RestoreStep::CowMapMemory],
    }
}

impl RestorePlan {
    /// The steps that carry out the plan, on the operating system. `forkable`
    /// says whether the guest is to be forked again.
    pub fn steps(&self, os: Os, forkable: bool) -> (r: Vec<RestoreStep>)
        ensures
            r@ == restore_steps(*self, os, forkable),
    {
        let mut steps: Vec<RestoreStep> = vec![RestoreStep::ReadCheckpoint];
        match self {
            RestorePlan::Portable { .. } => {
                steps.push(RestoreStep::OpenMemory);
                steps.push(RestoreStep::MeasureMemory);
                steps.push(
                    if os == Os::Windows {
                        RestoreStep::LoadMemory
                    } else if os == Os::Linux && forkable {
                        RestoreStep::PromoteMemory
                    } else {
                        RestoreStep::MapMemory
                    },
                );
            },
            RestorePlan::Guardian(_) => {
                steps.push(RestoreStep::ConnectGuardian);
                steps.push(RestoreStep::CreatePagedMemory);
            },
            RestorePlan::Fork { .. } => {
                steps.push(RestoreStep::CowMapMemory);
            },
        }
        assert(steps@ =~= restore_steps(*self, os, forkable));
        steps
    }

    /// The memory image, `actual` bytes long, is the one that the manifest
    /// describes.
    pub fn check_image(&self, actual: u64) -> (r: Result<(), String>)
        ensures
            match self {
                RestorePlan::Portable { image_len, .. } => if actual == *image_len {
                    r is Ok
                } else {
                    r matches Err(e) && e@ == "memory: image length "@ + decimal_of(actual as nat)
                        + " does not match manifest "@ + decimal_of(*image_len as nat)
                },
                _ => r is Ok,
            },
    {
        match self {
            RestorePlan::Portable { image_len, .. } => {
                if actual == *image_len {
                    return Ok(());
                }
                let mut e = join3(
                    "memory: image length ",
                    decimal(actual).as_str(),
                    " does not match manifest ",
                );
                e.append(decimal(*image_len).as_str());
                Err(e)
            },
            _ => Ok(()),
        }
    }
}

impl RestoreStep {
    pub open spec fn label(self) -> Seq<char> {
        match self {
            RestoreStep::ReadManifest => "manifest"@,
            RestoreStep::ReadCheckpoint => "checkpoint"@,
            RestoreStep::OpenMemory => "memory"@,
            RestoreStep::MeasureMemory => "memory metadata"@,
            RestoreStep::PromoteMemory => "promote portable guest memory"@,
            RestoreStep::MapMemory => "map guest memory"@,
            RestoreStep::LoadMemory => "load guest memory"@,
            RestoreStep::ConnectGuardian => "connect RAM guardian"@,
            RestoreStep::CreatePagedMemory => "create demand-paged guest RAM"@,
            RestoreStep::CowMapMemory => "cow-map guest memory"@,
        }
    }

    /// The description of the step's failure.
    pub fn failure(&self, error: &str) -> (r: String)
        ensures
            r@ == self.label() + ": "@ + error@,
    {
        let label = match self {
            RestoreStep::ReadManifest => "manifest",
            RestoreStep::ReadCheckpoint => "checkpoint",
            RestoreStep::OpenMemory => "memory",
            RestoreStep::MeasureMemory => "memory metadata",
            RestoreStep::PromoteMemory => "promote portable guest memory",
            RestoreStep::MapMemory => "map guest memory",
            RestoreStep::LoadMemory => "load guest memory",
            RestoreStep::ConnectGuardian => "connect RAM guardian",
            RestoreStep::CreatePagedMemory => "create demand-paged guest RAM",
            RestoreStep::CowMapMemory => "cow-map guest memory",
        };
        join3(label, ": ", error)
    }
}

} // verus!
