use cutler::brew::{diff_brew, flatten_tap_prefix, BrewListType};
use cutler::commands::{ApplyCmd, BrewSubcmd, BrewBackupCmd, Command, LockCmd, StatusCmd, UnlockCmd};
use cutler::config::{get_snapshot_path, Brew, Config, ConfigError, LoadedConfig, PathError};
use cutler::context::AppContextManager;
use cutler::digest::{get_digest, hex_lower};
use cutler::document::DomainSettings;
use cutler::exec::{lookup_var, select_jobs, ExecJob, ExecMode};
use cutler::config::Command as ConfigCommand;
use cutler::logging::LogLevel;
use cutler::status::{entries_of, plan_reset, plan_status};
use cutler::apply::ConfigEntry;
use cutler::value::PrefValue;

fn s(x: &str) -> String {
    x.to_string()
}

fn names(v: &[&str]) -> Vec<String> {
    v.iter().map(|x| s(x)).collect()
}

#[test]
fn digest_is_lower_hex_sha256() {
    assert_eq!(get_digest(b""), "e3b0c44298fc1c149afbf4c8996fb92427ae41e4649b934ca495991b7852b855");
    assert_eq!(get_digest(b"abc"), "ba7816bf8f01cfea414140de5dae2223b00361a396177a9cb410ff61f20015ad");
    assert_eq!(hex_lower(&vec![0x00, 0xff, 0x1a]), "00ff1a");
}

#[test]
fn snapshot_lives_beside_the_configuration() {
    assert_eq!(get_snapshot_path("/home/u/.config/cutler/config.toml"), Ok(s("/home/u/.config/cutler/snapshot.json")));
    assert_eq!(get_snapshot_path("/config.toml"), Ok(s("/snapshot.json")));
    assert_eq!(get_snapshot_path("config.toml"), Ok(s("snapshot.json")));
    assert_eq!(get_snapshot_path(""), Err(PathError::NoParent));
    assert_eq!(get_snapshot_path("/etc/"), Err(PathError::NoParent));
    let ctx = AppContextManager::sync(s("/a/b/cutler.toml")).unwrap();
    assert_eq!(ctx.config.path(), "/a/b/cutler.toml");
    assert_eq!(ctx.snapshot.path(), "/a/b/snapshot.json");
}

#[test]
fn locked_configuration_refuses_changes() {
    let mut cfg = LoadedConfig { lock: Some(true), set: None, vars: None, command: None, brew: None, remote: None, path: s("/c.toml") };
    assert_eq!(cfg.check_lock(true), Err(ConfigError::Locked));
    assert_eq!(cfg.check_lock(false), Ok(()));
    cfg.lock = None;
    assert_eq!(cfg.check_lock(true), Ok(()));
    let c = Config::new(s("/c.toml"));
    assert!(c.is_loadable(true));
    assert!(!c.is_loadable(false));
    assert_eq!(c.check_load(false, &cfg, true), Err(ConfigError::NotFound));
    cfg.lock = Some(true);
    assert_eq!(c.check_load(true, &cfg, true), Err(ConfigError::Locked));
    assert_eq!(c.path(), "/c.toml");
}

#[test]
fn tap_prefixes_are_flattened() {
    let got = flatten_tap_prefix(&names(&["some/cool/program", "other_program", "a/b"]));
    assert_eq!(got, names(&["some/cool/program", "program", "other_program", "a/b"]));
}

#[test]
fn brew_diff_lists_missing_and_extra() {
    let cfg = Brew {
        formulae: Some(names(&["git", "user/tap/tool"])),
        casks: Some(names(&["firefox"])),
        taps: Some(names(&["user/tap"])),
        no_deps: Some(true),
    };
    let diff = diff_brew(
        &cfg,
        &names(&["git", "openssl", "wget"]),
        &names(&["firefox", "slack"]),
        &names(&["homebrew/core"]),
        &names(&["openssl"]),
    );
    assert_eq!(diff.missing_formulae, names(&["user/tap/tool", "tool"]));
    assert_eq!(diff.extra_formulae, names(&["wget"]));
    assert!(diff.missing_casks.is_empty());
    assert_eq!(diff.extra_casks, names(&["slack"]));
    assert_eq!(diff.missing_taps, names(&["user/tap"]));
    assert_eq!(diff.extra_taps, names(&["homebrew/core"]));
    assert_eq!(BrewListType::Dependency.flag(), "--installed-as-dependency");
    assert_eq!(BrewListType::Tap.flag(), "tap");
    assert_eq!(BrewListType::Cask.flag(), "--cask");
    assert_eq!(BrewListType::Formula.flag(), "--formula");
}

fn job(name: &str, flag: bool, first: bool) -> ExecJob {
    ExecJob { name: s(name), run: s("true"), sudo: false, ensure_first: first, flag, required: vec![] }
}

#[test]
fn external_commands_are_selected_by_mode() {
    let jobs = vec![job("a", false, true), job("b", true, false), job("c", false, false), job("d", false, false)];
    let present = vec![true, true, true, false];
    let r = select_jobs(&jobs, ExecMode::Regular, &present);
    assert_eq!(r.ensure_first, vec![0]);
    assert_eq!(r.regular, vec![2]);
    let r = select_jobs(&jobs, ExecMode::Flagged, &present);
    assert!(r.ensure_first.is_empty());
    assert_eq!(r.regular, vec![1]);
    let r = select_jobs(&jobs, ExecMode::All, &present);
    assert_eq!(r.ensure_first, vec![0]);
    assert_eq!(r.regular, vec![1, 2]);
}

#[test]
fn commands_carry_their_rules() {
    let apply = Command::Apply(ApplyCmd {
        url: None,
        no_cmd: false,
        all_cmd: false,
        flagged_cmd: false,
        no_dom_check: false,
        brew: false,
        brew_force: false,
        brew_skip_cask: false,
        brew_skip_formula: false,
    });
    let r = apply.invoke_rules();
    assert!(r.do_config_autosync && !r.require_sudo && r.respect_lock);
    let r = Command::Lock(LockCmd).invoke_rules();
    assert!(!r.do_config_autosync && r.require_sudo && !r.respect_lock);
    let r = Command::Unlock(UnlockCmd).invoke_rules();
    assert!(!r.respect_lock);
    let r = Command::Status(StatusCmd { no_brew: true }).invoke_rules();
    assert!(!r.respect_lock);
    let r = Command::Brew { command: BrewSubcmd::Backup(BrewBackupCmd { no_deps: false }) }.invoke_rules();
    assert!(r.respect_lock);
}

#[test]
fn log_levels_follow_quiet_and_verbose() {
    assert!(LogLevel::Error.should_print(true, false));
    assert!(LogLevel::Warning.should_print(true, false));
    assert!(!LogLevel::Dry.should_print(true, true));
    assert!(!LogLevel::Info.should_print(false, false));
    assert!(LogLevel::Info.should_print(false, true));
    assert!(LogLevel::Exec.should_print(false, false));
    assert!(LogLevel::Error.to_stderr());
    assert!(!LogLevel::Info.to_stderr());
}

#[test]
fn status_and_reset_classify_entries() {
    let domains = vec![
        DomainSettings { domain: s("dock"), settings: vec![(s("tilesize"), PrefValue::Integer(50)), (s("autohide"), PrefValue::Boolean(true))] },
        DomainSettings { domain: s("finder"), settings: vec![(s("ShowPathbar"), PrefValue::Boolean(true))] },
    ];
    let entries: Vec<ConfigEntry> = entries_of(&domains);
    assert_eq!(entries.len(), 3);
    assert_eq!(entries[2].domain, "finder");
    assert_eq!(entries[1].key, "autohide");
    let current = vec![Some(PrefValue::Integer(50)), Some(PrefValue::Boolean(false)), None];
    let known = names(&["com.apple.dock", "com.apple.finder"]);
    let status = plan_status(&entries, &current, &known);
    assert_eq!(status.len(), 3);
    assert_eq!(status[0].domain, "com.apple.dock");
    assert!(!status[0].diverged);
    assert!(status[1].diverged);
    assert!(status[2].diverged);
    let reset = plan_reset(&entries, &current, &known);
    let keys: Vec<&str> = reset.iter().map(|d| d.key.as_str()).collect();
    assert_eq!(keys, vec!["tilesize", "autohide"]);
}

#[test]
fn variables_are_substituted_from_the_first_binding() {
    let vars = vec![(s("hostname"), s("test-host")), (s("USER"), s("me")), (s("hostname"), s("shadowed"))];
    assert_eq!(lookup_var(&vars, "hostname"), "test-host");
    assert_eq!(lookup_var(&vars, "nothing"), "${nothing}");
    let cmd = ConfigCommand { run: s("echo Hello $hostname ${USER} $missing $"), ensure_first: None, required: None, flag: Some(true), sudo: None };
    let job = ExecJob::from_command("foo", &cmd, &vars).unwrap();
    assert_eq!(job.run, "echo Hello test-host me ${missing} $");
    assert_eq!(job.name, "foo");
    assert!(job.flag && !job.sudo && !job.ensure_first);
    assert!(job.required.is_empty());
}
