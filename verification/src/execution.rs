//! The provisioning plan and the ordered steps that execute it.
//!
//! The verified core computes the exact sequence of external operations a
//! plan calls for: create the array, format it, create the mount point,
//! mount it.  A dry run calls for no steps at all.  Running the steps — and
//! stopping at the first failure — is the caller's part; each step is a
//! plain argument list or a directory path.

use vstd::prelude::*;
use vstd::string::*;
use crate::chars::dec_digits;
use crate::chars::usize_to_string;
use crate::config::Config;
use crate::filesystem::Filesystem;
use crate::raid_level::RaidLevel;

verus! {

/// A provisioning plan that describes what will be done.
#[derive(Debug, Clone, PartialEq)]
pub struct ProvisioningPlan {
    pub raid_level: RaidLevel,
    pub disks: Vec<String>,
    pub filesystem: Filesystem,
    pub mount_point: String,
}

/// The mathematical image of a plan.
pub struct PlanView {
    pub raid_level: RaidLevel,
    pub disks: Seq<Seq<char>>,
    pub filesystem: Filesystem,
    pub mount_point: Seq<char>,
}

impl View for ProvisioningPlan {
    type V = PlanView;

    open spec fn view(&self) -> PlanView {
        PlanView {
            raid_level: self.raid_level,
            disks: self.disks.deep_view(),
            filesystem: self.filesystem,
            mount_point: self.mount_point@,
        }
    }
}

/// One step of plan execution.
#[derive(Debug, Clone, PartialEq)]
pub enum ExecStep {
    /// Run an external command, given as program name and arguments,
    /// and fail on a non-zero exit status.
    Invoke(Vec<String>),
    /// Create a directory and any missing parents; an existing directory
    /// counts as success.
    EnsureDir(String),
}

/// The mathematical image of a step.
pub enum StepView {
    Invoke(Seq<Seq<char>>),
    EnsureDir(Seq<char>),
}

impl View for ExecStep {
    type V = StepView;

    open spec fn view(&self) -> StepView {
        match self {
            ExecStep::Invoke(args) => StepView::Invoke(args.deep_view()),
            ExecStep::EnsureDir(d) => StepView::EnsureDir(d@),
        }
    }
}

impl DeepView for ExecStep {
    type V = StepView;

    open spec fn deep_view(&self) -> StepView {
        self.view()
    }
}

/// The level designator handed to the array-creation tool.
pub open spec fn spec_level_flag(level: RaidLevel) -> Seq<char> {
    match level {
        RaidLevel::Single => "linear"@,
        RaidLevel::Raid0 => "0"@,
        RaidLevel::Raid1 => "1"@,
        RaidLevel::Raid5 => "5"@,
        RaidLevel::Raid6 => "6"@,
        RaidLevel::Raid10 => "10"@,
    }
}

/// The level designator handed to the array-creation tool.
pub fn level_flag(level: &RaidLevel) -> (flag: &'static str)
    ensures
        flag@ == spec_level_flag(*level),
{
    match level {
        RaidLevel::Single => "linear",
        RaidLevel::Raid0 => "0",
        RaidLevel::Raid1 => "1",
        RaidLevel::Raid5 => "5",
        RaidLevel::Raid6 => "6",
        RaidLevel::Raid10 => "10",
    }
}

/// The argument list that creates the array on `/dev/md0`.
pub open spec fn spec_mdadm_command(p: PlanView) -> Seq<Seq<char>> {
    seq![
        "mdadm"@,
        "--create"@,
        "/dev/md0"@,
        "--level"@,
        spec_level_flag(p.raid_level),
        "--raid-devices"@,
        dec_digits(p.disks.len() as int),
    ] + p.disks
}

/// Build the array-creation command for a plan.
pub fn mdadm_command(plan: &ProvisioningPlan) -> (cmd: Vec<String>)
    ensures
        cmd.deep_view() == spec_mdadm_command(plan@),
{
    let mut cmd: Vec<String> = Vec::new();
    cmd.push(String::from_str("mdadm"));
    cmd.push(String::from_str("--create"));
    cmd.push(String::from_str("/dev/md0"));
    cmd.push(String::from_str("--level"));
    cmd.push(String::from_str(level_flag(&plan.raid_level)));
    cmd.push(String::from_str("--raid-devices"));
    cmd.push(usize_to_string(plan.disks.len()));
    let ghost head = cmd.deep_view();
    let mut i: usize = 0;
    while i < plan.disks.len()
        invariant
            i <= plan.disks@.len(),
            cmd.deep_view() == head + plan.disks.deep_view().subrange(0, i as int),
        decreases plan.disks@.len() - i,
    {
        let ghost before = cmd.deep_view();
        cmd.push(plan.disks[i].clone());
        proof {
            assert(cmd.deep_view() =~= before.push(plan.disks.deep_view()[i as int]));
            assert(before.push(plan.disks.deep_view()[i as int]) =~= head
                + plan.disks.deep_view().subrange(0, i + 1));
        }
        i = i + 1;
    }
    proof {
        assert(plan.disks.deep_view().subrange(0, plan.disks@.len() as int) =~= plan
            .disks
            .deep_view());
        assert(head =~= seq![
            "mdadm"@,
            "--create"@,
            "/dev/md0"@,
            "--level"@,
            spec_level_flag(plan.raid_level),
            "--raid-devices"@,
            dec_digits(plan.disks@.len() as int),
        ]);
        assert(cmd.deep_view() =~= spec_mdadm_command(plan@));
    }
    cmd
}

/// The ordered steps a plan calls for.  A dry run calls for none: it logs
/// and succeeds without any external effect.  Otherwise: create the array,
/// format it, create the mount point, mount the array — in that order, a
/// later step to be attempted only after every earlier one succeeded.
pub open spec fn spec_execution_steps(p: PlanView, dry_run: bool) -> Seq<StepView> {
    if dry_run {
        Seq::empty()
    } else {
        seq![
            StepView::Invoke(spec_mdadm_command(p)),
            StepView::Invoke(p.filesystem.spec_format_command("/dev/md0"@)),
            StepView::EnsureDir(p.mount_point),
            StepView::Invoke(seq!["mount"@, "/dev/md0"@, p.mount_point]),
        ]
    }
}

/// Compute the steps that execute a plan.  Under `dry_run` the list is
/// empty: nothing external is ever invoked.
pub fn execution_steps(plan: &ProvisioningPlan, config: &Config) -> (steps: Vec<ExecStep>)
    ensures
        steps.deep_view() == spec_execution_steps(plan@, config.dry_run),
        config.dry_run ==> steps@.len() == 0,
{
    let mut steps: Vec<ExecStep> = Vec::new();
    if config.dry_run {
        proof {
            assert(steps.deep_view() =~= spec_execution_steps(plan@, true));
        }
        return steps;
    }
    steps.push(ExecStep::Invoke(mdadm_command(plan)));
    steps.push(ExecStep::Invoke(plan.filesystem.format_command("/dev/md0")));
    steps.push(ExecStep::EnsureDir(plan.mount_point.clone()));
    let mut mount_args: Vec<String> = Vec::new();
    mount_args.push(String::from_str("mount"));
    mount_args.push(String::from_str("/dev/md0"));
    mount_args.push(plan.mount_point.clone());
    proof {
        assert(mount_args.deep_view() =~= seq!["mount"@, "/dev/md0"@, plan.mount_point@]);
    }
    steps.push(ExecStep::Invoke(mount_args));
    proof {
        assert(steps.deep_view() =~= spec_execution_steps(plan@, false));
    }
    steps
}

} // verus!
