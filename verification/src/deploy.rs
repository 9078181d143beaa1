//! Deploying the bundled authoring skill: where its files live, and what
//! deploying it to the Copilot skills directory does given what is found
//! there.

use vstd::prelude::*;
use crate::paths::{join_path, path_join, same_path, same_path_spec};
use crate::text::concat2;
use vstd::string::StringExecFns;

verus! {

/// Where the skill's files are installed: `<config_dir>/skills/nimble-authoring`.
pub open spec fn skill_dir_spec(config_dir: Seq<char>) -> Seq<char> {
    path_join(path_join(config_dir, "skills"@), "nimble-authoring"@)
}

/// Where the skill is deployed: `<home>/.copilot/skills/nimble-authoring`.
pub open spec fn deploy_target_spec(home: Seq<char>) -> Seq<char> {
    path_join(path_join(path_join(home, ".copilot"@), "skills"@), "nimble-authoring"@)
}

/// The directory holding the deployed skill: `<home>/.copilot/skills`.
pub open spec fn deploy_parent_spec(home: Seq<char>) -> Seq<char> {
    path_join(path_join(home, ".copilot"@), "skills"@)
}

/// The installed skill directory under `config_dir`.
pub fn skill_dir(config_dir: &str) -> (r: String)
    ensures
        r@ == skill_dir_spec(config_dir@),
{
    let s = join_path(config_dir, "skills");
    join_path(s.as_str(), "nimble-authoring")
}

/// The deploy target under the home directory `home`.
pub fn deploy_target(home: &str) -> (r: String)
    ensures
        r@ == deploy_target_spec(home@),
{
    let c = join_path(home, ".copilot");
    let parent = join_path(c.as_str(), "skills");
    join_path(parent.as_str(), "nimble-authoring")
}

/// What is found at the deploy target.
#[derive(Debug)]
pub enum TargetFound {
    /// Nothing, not even a dangling link.
    Absent,
    /// A symbolic link; reading it gave its destination or an error text.
    Symlink(Result<String, String>),
    /// A directory (not a link).
    Directory,
    /// Any other file.
    File,
}

/// What to remove before linking.
#[derive(Clone, Copy, Debug, PartialEq, Eq, Structural)]
pub enum Removal {
    /// Remove the directory and its contents.
    Directory,
    /// Remove the file or link.
    File,
}

/// What deploying does.
#[derive(Debug)]
pub enum DeployPlan {
    /// Deploying fails with this message.
    Fail(String),
    /// Nothing to do; the message says so.
    UpToDate(String),
    /// Remove what is at `target` (if anything), create `parent`, then link
    /// `target` to `source`.
    Link { remove: Option<Removal>, parent: String, source: String, target: String },
}

/// The model of a plan: `Fail` and `UpToDate` by their messages, `Link` by
/// its removal and paths.
pub enum PlanModel {
    Fail(Seq<char>),
    UpToDate(Seq<char>),
    Link(Option<Removal>, Seq<char>, Seq<char>, Seq<char>),
}

/// The model of a plan.
pub open spec fn plan_model(p: DeployPlan) -> PlanModel {
    match p {
        DeployPlan::Fail(m) => PlanModel::Fail(m@),
        DeployPlan::UpToDate(m) => PlanModel::UpToDate(m@),
        DeployPlan::Link { remove, parent, source, target } => PlanModel::Link(
            remove,
            parent@,
            source@,
            target@,
        ),
    }
}

/// The message when the skill's files are not installed.
pub open spec fn missing_source_message() -> Seq<char> {
    "Skill files not found in config directory. Please restart Nimble."@
}

/// The message when there is no home directory.
pub open spec fn no_home_message() -> Seq<char> {
    "Could not determine home directory"@
}

/// The message when the link is already in place.
pub open spec fn up_to_date_message() -> Seq<char> {
    "Already deployed — symlink is up to date."@
}

/// The plan for the installed skill at `source` (which exists or not), the
/// home directory, and what is found at the target: fail without installed
/// files or without a home directory; nothing to do when the target is a
/// link to `source`; fail when the link cannot be read; otherwise remove
/// what is at the target (a directory with its contents, else the file or
/// link) and link it. The link's destination and `source` are compared as
/// paths, component by component.
pub open spec fn deploy_plan_spec(
    source: Seq<char>,
    source_exists: bool,
    home: Option<Seq<char>>,
    found: TargetFound,
) -> PlanModel {
    if !source_exists {
        PlanModel::Fail(missing_source_message())
    } else {
        match home {
            None => PlanModel::Fail(no_home_message()),
            Some(h) => {
                let link = |remove: Option<Removal>|
                    PlanModel::Link(remove, deploy_parent_spec(h), source, deploy_target_spec(h));
                match found {
                    TargetFound::Absent => link(None),
                    TargetFound::Symlink(Ok(dest)) => if same_path_spec(dest@, source) {
                        PlanModel::UpToDate(up_to_date_message())
                    } else {
                        link(Some(Removal::File))
                    },
                    TargetFound::Symlink(Err(e)) => PlanModel::Fail(e@),
                    TargetFound::Directory => link(Some(Removal::Directory)),
                    TargetFound::File => link(Some(Removal::File)),
                }
            },
        }
    }
}

/// Deploying is idempotent: once the target links to the installed skill,
/// deploying again does nothing.
pub proof fn law_deploy_idempotent(source: Seq<char>, home: Seq<char>, dest: String)
    requires
        dest@ == source,
    ensures
        deploy_plan_spec(source, true, Some(home), TargetFound::Symlink(Ok(dest)))
            == PlanModel::UpToDate(up_to_date_message()),
{
}

/// Decide how to deploy the skill installed at `source`.
pub fn deploy_plan(source: &str, source_exists: bool, home: Option<&str>, found: TargetFound) -> (r:
    DeployPlan)
    ensures
        plan_model(r) == deploy_plan_spec(
            source@,
            source_exists,
            match home {
                Some(h) => Some(h@),
                None => None,
            },
            found,
        ),
{
    if !source_exists {
        return DeployPlan::Fail(
            String::from_str("Skill files not found in config directory. Please restart Nimble."),
        );
    }
    let h = match home {
        None => {
            return DeployPlan::Fail(String::from_str("Could not determine home directory"));
        },
        Some(h) => h,
    };
    let c = join_path(h, ".copilot");
    let parent = join_path(c.as_str(), "skills");
    let target = deploy_target(h);
    let remove = match found {
        TargetFound::Absent => None,
        TargetFound::Symlink(Ok(dest)) => {
            if same_path(dest.as_str(), source) {
                return DeployPlan::UpToDate(
                    String::from_str("Already deployed — symlink is up to date."),
                );
            }
            Some(Removal::File)
        },
        TargetFound::Symlink(Err(e)) => {
            return DeployPlan::Fail(e);
        },
        TargetFound::Directory => Some(Removal::Directory),
        TargetFound::File => Some(Removal::File),
    };
    DeployPlan::Link { remove, parent, source: String::from_str(source), target }
}

/// The error when removing what is at the target fails.
pub fn removal_error(kind: Removal, reason: &str) -> (r: String)
    ensures
        r@ == match kind {
            Removal::Directory => "Could not remove existing directory: "@ + reason@,
            Removal::File => "Could not remove existing file: "@ + reason@,
        },
{
    match kind {
        Removal::Directory => concat2("Could not remove existing directory: ", reason),
        Removal::File => concat2("Could not remove existing file: ", reason),
    }
}

/// The error when the skills directory cannot be created.
pub fn parent_error(reason: &str) -> (r: String)
    ensures
        r@ == "Could not create .copilot/skills/: "@ + reason@,
{
    concat2("Could not create .copilot/skills/: ", reason)
}

/// The error when the link cannot be created.
pub fn link_error(reason: &str) -> (r: String)
    ensures
        r@ == "Could not create symlink: "@ + reason@,
{
    concat2("Could not create symlink: ", reason)
}

/// The message after linking.
pub fn deployed_message(source: &str) -> (r: String)
    ensures
        r@ == "Deployed — symlinked to "@ + source@,
{
    concat2("Deployed — symlinked to ", source)
}

} // verus!
