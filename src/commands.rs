use vstd::prelude::*;

verus! {

/// How a command must be run.
#[derive(Debug, Clone, Copy, PartialEq, Eq, Structural)]
pub struct RunnableInvokeRules {
    /// Sync the configuration with its remote before the command.
    pub do_config_autosync: bool,
    /// The command needs administrator rights.
    pub require_sudo: bool,
    /// The command changes something and so is refused a locked configuration.
    pub respect_lock: bool,
}

pub open spec fn rules(do_config_autosync: bool, require_sudo: bool, respect_lock: bool) -> RunnableInvokeRules {
    RunnableInvokeRules { do_config_autosync, require_sudo, respect_lock }
}

/// A command of the tool, with the rules by which it must be run.
pub trait Runnable {
    spec fn invoke_rules_spec(&self) -> RunnableInvokeRules;

    fn get_invoke_rules(&self) -> (r: RunnableInvokeRules)
        ensures
            r == self.invoke_rules_spec(),
    ;
}

/// Apply the configuration: preferences, then optionally Homebrew and
/// external commands.
pub struct ApplyCmd {
    pub url: Option<String>,
    pub no_cmd: bool,
    pub all_cmd: bool,
    pub flagged_cmd: bool,
    pub no_dom_check: bool,
    pub brew: bool,
    pub brew_force: bool,
    pub brew_skip_cask: bool,
    pub brew_skip_formula: bool,
}

/// Write the installed Homebrew packages into the configuration.
pub struct BrewBackupCmd {
    pub no_deps: bool,
}

/// Install the Homebrew packages of the configuration.
pub struct BrewInstallCmd {
    pub force: bool,
    pub skip_cask: bool,
    pub skip_formula: bool,
}

/// Check whether a newer release exists.
pub struct CheckUpdateCmd;

/// The shells completions can be generated for.
#[derive(Debug, Clone, Copy, PartialEq, Eq, Structural)]
pub enum Shell {
    Bash,
    Zsh,
    Fish,
    Elvish,
    PowerShell,
}

/// Generate shell completions.
pub struct CompletionCmd {
    pub shell: Shell,
}

/// Show the configuration.
pub struct ConfigCmd;

/// Open the cookbook.
pub struct CookbookCmd;

/// Run one or all external commands.
pub struct ExecCmd {
    pub name: Option<String>,
    pub all: bool,
    pub flagged: bool,
}

/// Replace the configuration with its remote.
pub struct FetchCmd {
    pub force: bool,
}

/// Write a new configuration file.
pub struct InitCmd;

/// Lock the configuration.
pub struct LockCmd;

/// Remove every configured preference from the store.
pub struct ResetCmd;

/// Replace the tool with its newest release.
pub struct SelfUpdateCmd {
    pub no_man: bool,
}

/// Compare the store against the configuration.
pub struct StatusCmd {
    pub no_brew: bool,
}

/// Undo what the last apply runs changed.
pub struct UnapplyCmd;

/// Unlock the configuration.
pub struct UnlockCmd;

impl Runnable for ApplyCmd {
    open spec fn invoke_rules_spec(&self) -> RunnableInvokeRules {
        rules(true, false, true)
    }

    fn get_invoke_rules(&self) -> (r: RunnableInvokeRules) {
        RunnableInvokeRules { do_config_autosync: true, require_sudo: false, respect_lock: true }
    }
}

impl Runnable for BrewBackupCmd {
    open spec fn invoke_rules_spec(&self) -> RunnableInvokeRules {
        rules(false, false, true)
    }

    fn get_invoke_rules(&self) -> (r: RunnableInvokeRules) {
        RunnableInvokeRules { do_config_autosync: false, require_sudo: false, respect_lock: true }
    }
}

impl Runnable for BrewInstallCmd {
    open spec fn invoke_rules_spec(&self) -> RunnableInvokeRules {
        rules(true, false, true)
    }

    fn get_invoke_rules(&self) -> (r: RunnableInvokeRules) {
        RunnableInvokeRules { do_config_autosync: true, require_sudo: false, respect_lock: true }
    }
}

impl Runnable for CheckUpdateCmd {
    open spec fn invoke_rules_spec(&self) -> RunnableInvokeRules {
        rules(false, false, false)
    }

    fn get_invoke_rules(&self) -> (r: RunnableInvokeRules) {
        RunnableInvokeRules { do_config_autosync: false, require_sudo: false, respect_lock: false }
    }
}

impl Runnable for CompletionCmd {
    open spec fn invoke_rules_spec(&self) -> RunnableInvokeRules {
        rules(false, false, false)
    }

    fn get_invoke_rules(&self) -> (r: RunnableInvokeRules) {
        RunnableInvokeRules { do_config_autosync: false, require_sudo: false, respect_lock: false }
    }
}

impl Runnable for ConfigCmd {
    open spec fn invoke_rules_spec(&self) -> RunnableInvokeRules {
        rules(false, false, false)
    }

    fn get_invoke_rules(&self) -> (r: RunnableInvokeRules) {
        RunnableInvokeRules { do_config_autosync: false, require_sudo: false, respect_lock: false }
    }
}

impl Runnable for CookbookCmd {
    open spec fn invoke_rules_spec(&self) -> RunnableInvokeRules {
        rules(false, false, false)
    }

    fn get_invoke_rules(&self) -> (r: RunnableInvokeRules) {
        RunnableInvokeRules { do_config_autosync: false, require_sudo: false, respect_lock: false }
    }
}

impl Runnable for ExecCmd {
    open spec fn invoke_rules_spec(&self) -> RunnableInvokeRules {
        rules(true, false, true)
    }

    fn get_invoke_rules(&self) -> (r: RunnableInvokeRules) {
        RunnableInvokeRules { do_config_autosync: true, require_sudo: false, respect_lock: true }
    }
}

impl Runnable for FetchCmd {
    open spec fn invoke_rules_spec(&self) -> RunnableInvokeRules {
        rules(false, false, true)
    }

    fn get_invoke_rules(&self) -> (r: RunnableInvokeRules) {
        RunnableInvokeRules { do_config_autosync: false, require_sudo: false, respect_lock: true }
    }
}

impl Runnable for InitCmd {
    open spec fn invoke_rules_spec(&self) -> RunnableInvokeRules {
        rules(false, false, false)
    }

    fn get_invoke_rules(&self) -> (r: RunnableInvokeRules) {
        RunnableInvokeRules { do_config_autosync: false, require_sudo: false, respect_lock: false }
    }
}

impl Runnable for LockCmd {
    open spec fn invoke_rules_spec(&self) -> RunnableInvokeRules {
        rules(false, true, false)
    }

    fn get_invoke_rules(&self) -> (r: RunnableInvokeRules) {
        RunnableInvokeRules { do_config_autosync: false, require_sudo: true, respect_lock: false }
    }
}

impl Runnable for ResetCmd {
    open spec fn invoke_rules_spec(&self) -> RunnableInvokeRules {
        rules(false, false, true)
    }

    fn get_invoke_rules(&self) -> (r: RunnableInvokeRules) {
        RunnableInvokeRules { do_config_autosync: false, require_sudo: false, respect_lock: true }
    }
}

impl Runnable for SelfUpdateCmd {
    open spec fn invoke_rules_spec(&self) -> RunnableInvokeRules {
        rules(false, true, false)
    }

    fn get_invoke_rules(&self) -> (r: RunnableInvokeRules) {
        RunnableInvokeRules { do_config_autosync: false, require_sudo: true, respect_lock: false }
    }
}

impl Runnable for StatusCmd {
    open spec fn invoke_rules_spec(&self) -> RunnableInvokeRules {
        rules(true, false, false)
    }

    fn get_invoke_rules(&self) -> (r: RunnableInvokeRules) {
        RunnableInvokeRules { do_config_autosync: true, require_sudo: false, respect_lock: false }
    }
}

impl Runnable for UnapplyCmd {
    open spec fn invoke_rules_spec(&self) -> RunnableInvokeRules {
        rules(false, false, true)
    }

    fn get_invoke_rules(&self) -> (r: RunnableInvokeRules) {
        RunnableInvokeRules { do_config_autosync: false, require_sudo: false, respect_lock: true }
    }
}

impl Runnable for UnlockCmd {
    open spec fn invoke_rules_spec(&self) -> RunnableInvokeRules {
        rules(false, true, false)
    }

    fn get_invoke_rules(&self) -> (r: RunnableInvokeRules) {
        RunnableInvokeRules { do_config_autosync: false, require_sudo: true, respect_lock: false }
    }
}

/// The Homebrew subcommands.
pub enum BrewSubcmd {
    Backup(BrewBackupCmd),
    Install(BrewInstallCmd),
}

/// The commands of the tool: a closed set, each with its invocation rules.
pub enum Command {
    Apply(ApplyCmd),
    Cookbook(CookbookCmd),
    Exec(ExecCmd),
    Init(InitCmd),
    Lock(LockCmd),
    Unlock(UnlockCmd),
    Unapply(UnapplyCmd),
    Reset(ResetCmd),
    Status(StatusCmd),
    Brew { command: BrewSubcmd },
    Config(ConfigCmd),
    CheckUpdate(CheckUpdateCmd),
    SelfUpdate(SelfUpdateCmd),
    Completion(CompletionCmd),
    Fetch(FetchCmd),
}

impl Command {
    pub open spec fn invoke_rules_spec(&self) -> RunnableInvokeRules {
        match self {
            Command::Apply(c) => c.invoke_rules_spec(),
            Command::Cookbook(c) => c.invoke_rules_spec(),
            Command::Exec(c) => c.invoke_rules_spec(),
            Command::Init(c) => c.invoke_rules_spec(),
            Command::Lock(c) => c.invoke_rules_spec(),
            Command::Unlock(c) => c.invoke_rules_spec(),
            Command::Unapply(c) => c.invoke_rules_spec(),
            Command::Reset(c) => c.invoke_rules_spec(),
            Command::Status(c) => c.invoke_rules_spec(),
            Command::Brew { command } => match command {
                BrewSubcmd::Backup(c) => c.invoke_rules_spec(),
                BrewSubcmd::Install(c) => c.invoke_rules_spec(),
            },
            Command::Config(c) => c.invoke_rules_spec(),
            Command::CheckUpdate(c) => c.invoke_rules_spec(),
            Command::SelfUpdate(c) => c.invoke_rules_spec(),
            Command::Completion(c) => c.invoke_rules_spec(),
            Command::Fetch(c) => c.invoke_rules_spec(),
        }
    }

    /// The invocation rules of the chosen command.
    pub fn invoke_rules(&self) -> (r: RunnableInvokeRules)
        ensures
            r == self.invoke_rules_spec(),
    {
        match self {
            Command::Apply(c) => c.get_invoke_rules(),
            Command::Cookbook(c) => c.get_invoke_rules(),
            Command::Exec(c) => c.get_invoke_rules(),
            Command::Init(c) => c.get_invoke_rules(),
            Command::Lock(c) => c.get_invoke_rules(),
            Command::Unlock(c) => c.get_invoke_rules(),
            Command::Unapply(c) => c.get_invoke_rules(),
            Command::Reset(c) => c.get_invoke_rules(),
            Command::Status(c) => c.get_invoke_rules(),
            Command::Brew { command } => match command {
                BrewSubcmd::Backup(c) => c.get_invoke_rules(),
                BrewSubcmd::Install(c) => c.get_invoke_rules(),
            },
            Command::Config(c) => c.get_invoke_rules(),
            Command::CheckUpdate(c) => c.get_invoke_rules(),
            Command::SelfUpdate(c) => c.get_invoke_rules(),
            Command::Completion(c) => c.get_invoke_rules(),
            Command::Fetch(c) => c.get_invoke_rules(),
        }
    }
}

/// The settings of one invocation, passed down rather than kept globally.
pub struct Args {
    pub verbose: bool,
    pub quiet: bool,
    pub no_restart_services: bool,
    pub no_sync: bool,
    pub dry_run: bool,
    pub accept_all: bool,
    pub command: Command,
}

} // verus!
