use scriba::fstree::{FsNode, ModuleDir};
use scriba::lifecycle::{
    boot_pass, confirm_uninstall, install_module, plan_module_init, run_script, uninstall_module,
    InitAction, InstallError, LifecycleError, ScriptKind, SystemState, UninstallStep,
};
use scriba::props::ValidationError;
use scriba::staging::DirSet;

fn module(prop: Option<&str>) -> ModuleDir {
    ModuleDir {
        prop: prop.map(|p| p.to_string()),
        has_install_script: true,
        has_uninstall_script: true,
        has_boot_script: false,
        uninstall_flag: false,
        disable_flag: false,
        system: Some(FsNode::Dir { entries: vec![] }),
    }
}

fn fresh_state() -> SystemState {
    SystemState { installed: DirSet::new(), pending: DirSet::new() }
}

const GOOD_PROP: &str = "id=test_mod\nname=Test\ndescription=D\nversion=1\n";

#[test]
fn install_lands_in_update_pending_only() {
    let mut state = fresh_state();
    let id = install_module(&mut state, module(Some(GOOD_PROP))).unwrap();
    assert_eq!(id, "test_mod");
    assert!(state.pending.contains("test_mod"));
    assert!(!state.installed.contains("test_mod"));
}

#[test]
fn install_replaces_same_id_pending_module() {
    let mut state = fresh_state();
    let old = "id=test_mod\nname=Old\ndescription=D\nversion=1\n";
    install_module(&mut state, module(Some(old))).unwrap();
    install_module(&mut state, module(Some(GOOD_PROP))).unwrap();
    assert_eq!(state.pending.len(), 1);
    assert_eq!(state.pending.get("test_mod").unwrap().prop.as_deref(), Some(GOOD_PROP));
}

#[test]
fn install_rejects_invalid_metadata_without_staging() {
    let mut state = fresh_state();
    let bad = "id=test_mod\ndescription=D\nversion=1\n";
    match install_module(&mut state, module(Some(bad))) {
        Err(InstallError::Invalid { error: ValidationError::Missing { key } }) => {
            assert_eq!(key, "name")
        },
        other => panic!("expected invalid install, got {:?}", other.is_ok()),
    }
    assert_eq!(state.pending.len(), 0);
}

#[test]
fn install_rejects_missing_prop_file() {
    let mut state = fresh_state();
    assert!(matches!(
        install_module(&mut state, module(None)),
        Err(InstallError::NoPropFile)
    ));
    assert_eq!(state.pending.len(), 0);
}

#[test]
fn uninstall_removes_pending_module() {
    let mut state = fresh_state();
    install_module(&mut state, module(Some(GOOD_PROP))).unwrap();
    let step = uninstall_module(&mut state, "test_mod").unwrap();
    assert!(matches!(step, UninstallStep::RemovedFromPending));
    assert!(!state.pending.contains("test_mod"));
}

#[test]
fn uninstall_flag_toggles() {
    let mut state = fresh_state();
    state.installed.insert("test_mod".to_string(), module(Some(GOOD_PROP)));
    // First uninstall: the module is unflagged, so the script is requested;
    // nothing changes yet.
    let step = uninstall_module(&mut state, "test_mod").unwrap();
    assert!(matches!(step, UninstallStep::ScriptThenFlag));
    assert!(!state.installed.get("test_mod").unwrap().uninstall_flag);
    // The script succeeded: the flag is created.
    confirm_uninstall(&mut state, "test_mod", true, Some(0)).unwrap();
    assert!(state.installed.get("test_mod").unwrap().uninstall_flag);
    // Second uninstall: the flag is removed and no script is requested.
    let step2 = uninstall_module(&mut state, "test_mod").unwrap();
    assert!(matches!(step2, UninstallStep::Unflagged));
    assert!(!state.installed.get("test_mod").unwrap().uninstall_flag);
}

#[test]
fn uninstall_without_script_fails_and_sets_no_flag() {
    let mut state = fresh_state();
    let mut m = module(Some(GOOD_PROP));
    m.has_uninstall_script = false;
    state.installed.insert("test_mod".to_string(), m);
    assert!(matches!(
        uninstall_module(&mut state, "test_mod"),
        Err(LifecycleError::ScriptMissing)
    ));
    assert!(!state.installed.get("test_mod").unwrap().uninstall_flag);
}

#[test]
fn failed_uninstall_script_sets_no_flag() {
    let mut state = fresh_state();
    state.installed.insert("test_mod".to_string(), module(Some(GOOD_PROP)));
    assert!(matches!(
        uninstall_module(&mut state, "test_mod"),
        Ok(UninstallStep::ScriptThenFlag)
    ));
    match confirm_uninstall(&mut state, "test_mod", false, Some(3)) {
        Err(LifecycleError::ScriptFailed { code }) => assert_eq!(code, Some(3)),
        other => panic!("expected script failure, got {:?}", other.is_ok()),
    }
    assert!(!state.installed.get("test_mod").unwrap().uninstall_flag);
}

#[test]
fn uninstall_of_unknown_module_reports_not_installed() {
    let mut state = fresh_state();
    let step = uninstall_module(&mut state, "ghost").unwrap();
    assert!(matches!(step, UninstallStep::NotInstalled));
}

#[test]
fn boot_pass_promotes_pending_and_deletes_flagged() {
    let mut state = fresh_state();
    let mut flagged = module(Some("id=old_mod\nname=O\ndescription=D\nversion=1\n"));
    flagged.uninstall_flag = true;
    state.installed.insert("old_mod".to_string(), flagged);
    install_module(&mut state, module(Some(GOOD_PROP))).unwrap();
    let plan = boot_pass(&mut state, false);
    assert!(!state.installed.contains("old_mod"));
    assert!(state.installed.contains("test_mod"));
    assert_eq!(state.pending.len(), 0);
    assert_eq!(plan.removed, vec!["old_mod".to_string()]);
    assert_eq!(plan.promoted, vec!["test_mod".to_string()]);
    assert_eq!(plan.init.len(), 1);
    assert_eq!(plan.init[0].id, "test_mod");
    assert!(matches!(
        plan.init[0].action,
        InitAction::Activate { mount: true, run_boot_script: false }
    ));
}

#[test]
fn boot_pass_promotion_overwrites_installed_module() {
    let mut state = fresh_state();
    state.installed.insert(
        "test_mod".to_string(),
        module(Some("id=test_mod\nname=Old\ndescription=D\nversion=1\n")),
    );
    install_module(&mut state, module(Some(GOOD_PROP))).unwrap();
    boot_pass(&mut state, true);
    assert_eq!(state.installed.get("test_mod").unwrap().prop.as_deref(), Some(GOOD_PROP));
}

#[test]
fn boot_pass_in_safe_mode_plans_no_activation() {
    let mut state = fresh_state();
    let mut flagged = module(Some("id=old_mod\nname=O\ndescription=D\nversion=1\n"));
    flagged.uninstall_flag = true;
    state.installed.insert("old_mod".to_string(), flagged);
    install_module(&mut state, module(Some(GOOD_PROP))).unwrap();
    let plan = boot_pass(&mut state, true);
    // Promotion and deletion still happen.
    assert!(!state.installed.contains("old_mod"));
    assert!(state.installed.contains("test_mod"));
    // But nothing is mounted and no boot script runs.
    assert!(plan.init.is_empty());
}

#[test]
fn end_to_end_install_then_boot() {
    let mut state = fresh_state();
    let id = install_module(&mut state, module(Some(GOOD_PROP))).unwrap();
    assert_eq!(id, "test_mod");
    assert!(state.pending.contains("test_mod"));
    assert!(!state.installed.contains("test_mod"));
    boot_pass(&mut state, false);
    assert!(state.installed.contains("test_mod"));
    assert!(!state.pending.contains("test_mod"));
}

#[test]
fn init_plan_skips_disabled_and_invalid_modules() {
    let mut state = fresh_state();
    let mut disabled = module(Some("id=dis\nname=N\ndescription=D\nversion=1\n"));
    disabled.disable_flag = true;
    state.installed.insert("dis".to_string(), disabled);
    state.installed.insert("bad".to_string(), module(Some("id=bad\nversion=1\n")));
    let plan = boot_pass(&mut state, false);
    assert_eq!(plan.init.len(), 2);
    for step in &plan.init {
        match step.id.as_str() {
            "dis" => assert!(matches!(step.action, InitAction::SkipDisabled)),
            "bad" => assert!(matches!(step.action, InitAction::SkipInvalid)),
            other => panic!("unexpected module {other}"),
        }
    }
}

#[test]
fn init_plan_honours_skip_mount() {
    let m = module(Some("id=m\nname=N\ndescription=D\nversion=1\nskip_mount=true\n"));
    match plan_module_init("m", &m) {
        InitAction::Activate { mount, run_boot_script } => {
            assert!(!mount);
            assert!(!run_boot_script);
        },
        other => panic!("expected activation, got {:?}", other),
    }
}

#[test]
fn init_plan_flags_id_mismatch_as_invalid() {
    let m = module(Some(GOOD_PROP));
    assert!(matches!(plan_module_init("renamed_dir", &m), InitAction::SkipInvalid));
}

#[test]
fn run_script_requires_existence_and_success() {
    let m = module(Some(GOOD_PROP));
    assert!(run_script(&m, ScriptKind::Uninstall, true, Some(0)).is_ok());
    match run_script(&m, ScriptKind::Uninstall, false, Some(7)) {
        Err(LifecycleError::ScriptFailed { code }) => assert_eq!(code, Some(7)),
        other => panic!("expected failure, got {:?}", other.is_ok()),
    }
    assert!(matches!(
        run_script(&m, ScriptKind::BootComplete, true, Some(0)),
        Err(LifecycleError::ScriptMissing)
    ));
}

#[test]
fn confirm_uninstall_on_unknown_module_fails() {
    let mut state = fresh_state();
    assert!(matches!(
        confirm_uninstall(&mut state, "ghost", true, Some(0)),
        Err(LifecycleError::NotInstalled)
    ));
}
