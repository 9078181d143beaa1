//! The command schema: what one command file defines.

use vstd::prelude::*;
use crate::env::EnvMap;

verus! {

/// Configuration of an `open_url` action.
#[derive(Debug)]
pub struct OpenUrlConfig {
    pub url: String,
}

/// Configuration of a `paste_text` action.
#[derive(Debug)]
pub struct PasteTextConfig {
    pub text: String,
}

/// Configuration of a `copy_text` action.
#[derive(Debug)]
pub struct CopyTextConfig {
    pub text: String,
}

/// The action performed when a list item is selected. The item's `subtext`
/// (falling back to `title`) is used as the value.
#[derive(Clone, Copy, Debug, PartialEq, Eq, Structural)]
pub enum ItemAction {
    PasteText,
    CopyText,
    OpenUrl,
}

/// Configuration of a `static_list` action.
#[derive(Debug)]
pub struct StaticListConfig {
    /// Name of the list file (without extension) next to the command file,
    /// or `shared:<name>`.
    pub list: String,
    /// Action on a selected item; without one, selecting an item only
    /// dismisses the launcher.
    pub item_action: Option<ItemAction>,
}

/// How a script command accepts the text typed after its phrase.
#[derive(Clone, Copy, Debug, PartialEq, Eq, Structural)]
pub enum ArgMode {
    /// The script runs without an argument (`arg: none`).
    NoArg,
    Optional,
    Required,
}

/// The argument mode of a script command that does not name one.
pub fn default_arg_mode() -> (m: ArgMode)
    ensures
        m == ArgMode::NoArg,
{
    ArgMode::NoArg
}

/// Configuration of a `dynamic_list` action.
#[derive(Debug)]
pub struct DynamicListConfig {
    /// Script file next to the command file, or `shared:<name>`.
    pub script: String,
    /// When the script runs and whether it receives an argument.
    pub arg: ArgMode,
    /// Action on a selected item; without one, selecting an item only
    /// dismisses the launcher.
    pub item_action: Option<ItemAction>,
}

/// The built-in action applied to each value a `script_action` returns.
#[derive(Clone, Copy, Debug, PartialEq, Eq, Structural)]
pub enum ResultAction {
    OpenUrl,
    PasteText,
    CopyText,
}

/// Configuration of a `script_action` action.
#[derive(Debug)]
pub struct ScriptActionConfig {
    /// Script file next to the command file, or `shared:<name>`.
    pub script: String,
    /// Whether the script receives the text typed after the phrase.
    pub arg: ArgMode,
    /// What is done with every value the script returns.
    pub result_action: ResultAction,
    /// Text put before each value for `paste_text` and `copy_text`.
    pub prefix: Option<String>,
    /// Text put after each value for `paste_text` and `copy_text`.
    pub suffix: Option<String>,
}

/// The action a command performs.
#[derive(Debug)]
pub enum Action {
    OpenUrl(OpenUrlConfig),
    PasteText(PasteTextConfig),
    CopyText(CopyTextConfig),
    StaticList(StaticListConfig),
    DynamicList(DynamicListConfig),
    ScriptAction(ScriptActionConfig),
}

/// The script an action runs, if it runs one.
pub open spec fn action_script(a: Action) -> Option<Seq<char>> {
    match a {
        Action::DynamicList(c) => Some(c.script@),
        Action::ScriptAction(c) => Some(c.script@),
        _ => None,
    }
}

impl Action {
    /// The script this action runs (`dynamic_list` and `script_action`).
    pub fn script(&self) -> (r: Option<&String>)
        ensures
            match r {
                Some(s) => action_script(*self) == Some(s@),
                None => action_script(*self) is None,
            },
    {
        match self {
            Action::DynamicList(c) => Some(&c.script),
            Action::ScriptAction(c) => Some(&c.script),
            _ => None,
        }
    }
}

/// One command, as defined by one command file.
#[derive(Debug)]
pub struct Command {
    pub phrase: String,
    pub title: String,
    /// Disabled commands are left out when loading.
    pub enabled: bool,
    /// Inline environment variables, merged last into a script's
    /// environment.
    pub env: EnvMap,
    pub action: Action,
    /// Directory of the command file relative to the commands root; set
    /// when loading.
    pub source_dir: String,
    /// Path of the command file relative to the commands root; set when
    /// loading.
    pub source_file: String,
}

/// Whether a command that does not say is enabled.
pub fn default_true() -> (b: bool)
    ensures
        b,
{
    true
}

} // verus!
