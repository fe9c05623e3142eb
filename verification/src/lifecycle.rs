//! The install/uninstall/boot lifecycle state machine.
//!
//! A module id is, at any time, in at most one of two persistent sets:
//! installed or update-pending.  Installing stages a validated module in the
//! pending set; uninstalling removes a pending module outright, or toggles
//! the uninstall flag of an installed one; the boot pass first deletes
//! flagged installed modules, then promotes every pending module into the
//! installed set (overwriting same-id modules), and finally — unless a
//! safe-mode marker is present — plans the activation of each installed
//! module.  Scripts and mounts are run by the surrounding binary, which
//! reports their outcomes back to these functions.

use vstd::prelude::*;

use crate::fstree::ModuleDir;
use crate::props::{
    check_module_fields, field_error_for, fields_valid, parsed_props, prop_valid, read_module_prop,
    spec_skip_mount, ValidationError,
};
use crate::staging::{delete_dir, move_dir, DirSet};

verus! {

/// The two persistent module sets.
pub struct SystemState {
    pub installed: DirSet,
    pub pending: DirSet,
}

impl SystemState {
    pub open spec fn wf(&self) -> bool {
        self.installed.wf() && self.pending.wf()
    }
}

/// Which lifecycle script of a module.
#[derive(Debug)]
pub enum ScriptKind {
    Install,
    Uninstall,
    BootComplete,
}

/// Whether the module directory carries the given script.
pub open spec fn has_script(m: ModuleDir, kind: ScriptKind) -> bool {
    match kind {
        ScriptKind::Install => m.has_install_script,
        ScriptKind::Uninstall => m.has_uninstall_script,
        ScriptKind::BootComplete => m.has_boot_script,
    }
}

/// Why a lifecycle operation failed.
#[derive(Debug)]
pub enum LifecycleError {
    ScriptMissing,
    ScriptFailed { code: Option<i32> },
    NotInstalled,
}

/// Judge a script run: the script must exist in the module directory and
/// its process must have exited successfully.  `exit_ok` and `exit_code`
/// are what the runner observed; they are ignored when the script does not
/// exist, since nothing was run.
pub fn run_script(dir: &ModuleDir, script: ScriptKind, exit_ok: bool, exit_code: Option<i32>) -> (r:
    Result<(), LifecycleError>)
    ensures
        r is Ok <==> has_script(*dir, script) && exit_ok,
        !has_script(*dir, script) ==> r == Err::<(), LifecycleError>(LifecycleError::ScriptMissing),
        has_script(*dir, script) && !exit_ok ==> r == Err::<(), LifecycleError>(
            LifecycleError::ScriptFailed { code: exit_code },
        ),
{
    let present = match script {
        ScriptKind::Install => dir.has_install_script,
        ScriptKind::Uninstall => dir.has_uninstall_script,
        ScriptKind::BootComplete => dir.has_boot_script,
    };
    if !present {
        Err(LifecycleError::ScriptMissing)
    } else if exit_ok {
        Ok(())
    } else {
        Err(LifecycleError::ScriptFailed { code: exit_code })
    }
}

/// Why an install failed before touching persistent state.
#[derive(Debug)]
pub enum InstallError {
    NoPropFile,
    Invalid { error: ValidationError },
}

/// Stage an unpacked module in the update-pending set.  The metadata is
/// validated first; only a fully valid module is staged, under its `id`,
/// replacing any same-id module already pending.  On failure nothing
/// changes.  The caller then runs the module's install script; a script
/// failure leaves the module staged.
pub fn install_module(state: &mut SystemState, unpacked: ModuleDir) -> (r: Result<
    String,
    InstallError,
>)
    requires
        old(state).wf(),
    ensures
        final(state).wf(),
        final(state).installed@ == old(state).installed@,
        match r {
            Ok(id) => unpacked.prop matches Some(content) && fields_valid(parsed_props(content@))
                && id@ == parsed_props(content@)["id"@] && final(state).pending@ == old(state).pending@.insert(id@, unpacked),
            Err(e) => final(state).pending@ == old(state).pending@ && match e {
                InstallError::NoPropFile => unpacked.prop is None,
                InstallError::Invalid { error } => unpacked.prop matches Some(content)
                    && !fields_valid(parsed_props(content@)) && field_error_for(
                    parsed_props(content@),
                    error,
                ),
            },
        },
{
    let prop = match &unpacked.prop {
        None => {
            return Err(InstallError::NoPropFile);
        },
        Some(content) => {
            match check_module_fields(content.as_str()) {
                Err(error) => {
                    return Err(InstallError::Invalid { error });
                },
                Ok(p) => p,
            }
        },
    };
    let id = prop.id;
    delete_dir(&mut state.pending, id.as_str());
    state.pending.insert(id.clone(), unpacked);
    proof {
        assert(state.pending@ =~= old(state).pending@.insert(id@, unpacked));
    }
    Ok(id)
}

/// What one uninstall invocation did or asks for.
#[derive(Debug)]
pub enum UninstallStep {
    RemovedFromPending,
    Unflagged,
    ScriptThenFlag,
    NotInstalled,
}

/// `m` with its uninstall flag set to `value`.
pub open spec fn with_uninstall_flag(m: ModuleDir, value: bool) -> ModuleDir {
    ModuleDir { uninstall_flag: value, ..m }
}

/// The outcome of one uninstall invocation on the given state.
pub open spec fn spec_uninstall_result(
    installed: Map<Seq<char>, ModuleDir>,
    pending: Map<Seq<char>, ModuleDir>,
    id: Seq<char>,
) -> Result<UninstallStep, LifecycleError> {
    if pending.dom().contains(id) {
        Ok(UninstallStep::RemovedFromPending)
    } else if installed.dom().contains(id) {
        if installed[id].uninstall_flag {
            Ok(UninstallStep::Unflagged)
        } else if installed[id].has_uninstall_script {
            Ok(UninstallStep::ScriptThenFlag)
        } else {
            Err(LifecycleError::ScriptMissing)
        }
    } else {
        Ok(UninstallStep::NotInstalled)
    }
}

/// The installed set after one uninstall invocation: only an installed,
/// flagged module changes — its flag is cleared.
pub open spec fn spec_uninstall_installed(
    installed: Map<Seq<char>, ModuleDir>,
    pending: Map<Seq<char>, ModuleDir>,
    id: Seq<char>,
) -> Map<Seq<char>, ModuleDir> {
    if !pending.dom().contains(id) && installed.dom().contains(id) && installed[id].uninstall_flag {
        installed.insert(id, with_uninstall_flag(installed[id], false))
    } else {
        installed
    }
}

/// The pending set after one uninstall invocation: a pending module of that
/// id is deleted.
pub open spec fn spec_uninstall_pending(
    pending: Map<Seq<char>, ModuleDir>,
    id: Seq<char>,
) -> Map<Seq<char>, ModuleDir> {
    if pending.dom().contains(id) {
        pending.remove(id)
    } else {
        pending
    }
}

/// One uninstall invocation.  A pending module is deleted outright; an
/// installed flagged module is unflagged (no script runs); an installed
/// unflagged module with an uninstall script is left untouched and the
/// caller is asked to run the script and then call `confirm_uninstall`;
/// without the script the operation fails.  An unknown id changes nothing.
pub fn uninstall_module(state: &mut SystemState, module_id: &str) -> (r: Result<
    UninstallStep,
    LifecycleError,
>)
    requires
        old(state).wf(),
    ensures
        final(state).wf(),
        r == spec_uninstall_result(old(state).installed@, old(state).pending@, module_id@),
        final(state).installed@ == spec_uninstall_installed(
            old(state).installed@,
            old(state).pending@,
            module_id@,
        ),
        final(state).pending@ == spec_uninstall_pending(old(state).pending@, module_id@),
{
    if state.pending.contains(module_id) {
        delete_dir(&mut state.pending, module_id);
        return Ok(UninstallStep::RemovedFromPending);
    }
    match state.installed.take(module_id) {
        Some(p) => {
            let name = p.0;
            let mut m = p.1;
            if m.uninstall_flag {
                m.uninstall_flag = false;
                proof {
                    assert(m == with_uninstall_flag(old(state).installed@[module_id@], false));
                }
                state.installed.insert(name, m);
                proof {
                    assert(state.installed@ =~= spec_uninstall_installed(
                        old(state).installed@,
                        old(state).pending@,
                        module_id@,
                    ));
                }
                Ok(UninstallStep::Unflagged)
            } else {
                let has = m.has_uninstall_script;
                state.installed.insert(name, m);
                proof {
                    assert(state.installed@ =~= old(state).installed@);
                }
                if has {
                    Ok(UninstallStep::ScriptThenFlag)
                } else {
                    Err(LifecycleError::ScriptMissing)
                }
            }
        },
        None => Ok(UninstallStep::NotInstalled),
    }
}

/// The installed set after a confirmed uninstall: the module's uninstall
/// flag is set once its script has succeeded.
pub open spec fn spec_confirm_installed(
    installed: Map<Seq<char>, ModuleDir>,
    id: Seq<char>,
    script_ok: bool,
) -> Map<Seq<char>, ModuleDir> {
    if script_ok && installed.dom().contains(id) && !installed[id].uninstall_flag {
        installed.insert(id, with_uninstall_flag(installed[id], true))
    } else {
        installed
    }
}

/// The outcome of a confirmed uninstall.
pub open spec fn spec_confirm_result(
    installed: Map<Seq<char>, ModuleDir>,
    id: Seq<char>,
    script_ok: bool,
    code: Option<i32>,
) -> Result<(), LifecycleError> {
    if !script_ok {
        Err(LifecycleError::ScriptFailed { code })
    } else if installed.dom().contains(id) && !installed[id].uninstall_flag {
        Ok(())
    } else {
        Err(LifecycleError::NotInstalled)
    }
}

/// Finish an uninstall whose script the caller has run: on success the
/// module is flagged for removal at the next boot pass; a failed script
/// changes nothing and surfaces the exit code.
pub fn confirm_uninstall(
    state: &mut SystemState,
    module_id: &str,
    script_ok: bool,
    exit_code: Option<i32>,
) -> (r: Result<(), LifecycleError>)
    requires
        old(state).wf(),
    ensures
        final(state).wf(),
        r == spec_confirm_result(old(state).installed@, module_id@, script_ok, exit_code),
        final(state).installed@ == spec_confirm_installed(
            old(state).installed@,
            module_id@,
            script_ok,
        ),
        final(state).pending@ == old(state).pending@,
{
    if !script_ok {
        return Err(LifecycleError::ScriptFailed { code: exit_code });
    }
    match state.installed.take(module_id) {
        Some(p) => {
            let name = p.0;
            let mut m = p.1;
            if m.uninstall_flag {
                state.installed.insert(name, m);
                proof {
                    assert(state.installed@ =~= old(state).installed@);
                }
                Err(LifecycleError::NotInstalled)
            } else {
                m.uninstall_flag = true;
                proof {
                    assert(m == with_uninstall_flag(old(state).installed@[module_id@], true));
                }
                state.installed.insert(name, m);
                proof {
                    assert(state.installed@ =~= spec_confirm_installed(
                        old(state).installed@,
                        module_id@,
                        true,
                    ));
                }
                Ok(())
            }
        },
        None => Err(LifecycleError::NotInstalled),
    }
}

/// Law: uninstalling an installed, unflagged module asks for its uninstall
/// script and changes nothing yet; once the script succeeds, the uninstall
/// flag is set; uninstalling again then clears the flag, asks for no
/// script, and leaves the module exactly as it started.
pub proof fn lemma_uninstall_toggle(
    installed: Map<Seq<char>, ModuleDir>,
    pending: Map<Seq<char>, ModuleDir>,
    id: Seq<char>,
)
    requires
        !pending.dom().contains(id),
        installed.dom().contains(id),
        !installed[id].uninstall_flag,
        installed[id].has_uninstall_script,
    ensures
        spec_uninstall_result(installed, pending, id) == Ok::<UninstallStep, LifecycleError>(
            UninstallStep::ScriptThenFlag,
        ),
        spec_uninstall_installed(installed, pending, id) == installed,
        spec_confirm_installed(installed, id, true)[id].uninstall_flag,
        spec_uninstall_result(spec_confirm_installed(installed, id, true), pending, id) == Ok::<
            UninstallStep,
            LifecycleError,
        >(UninstallStep::Unflagged),
        spec_uninstall_installed(spec_confirm_installed(installed, id, true), pending, id)
            == installed,
{
    let flagged = spec_confirm_installed(installed, id, true);
    assert(flagged[id] == with_uninstall_flag(installed[id], true));
    assert(with_uninstall_flag(with_uninstall_flag(installed[id], true), false) == installed[id]);
    assert(spec_uninstall_installed(flagged, pending, id) =~= installed);
}

/// What the boot pass decides to do with one installed module.
#[derive(Debug)]
pub enum InitAction {
    SkipInvalid,
    SkipDisabled,
    Activate { mount: bool, run_boot_script: bool },
}

/// The module's metadata is valid for a directory of the given name.
pub open spec fn module_prop_ok(m: ModuleDir, dir_name: Seq<char>) -> bool {
    m.prop matches Some(content) && prop_valid(parsed_props(content@), dir_name)
}

/// The module asks not to be mounted.
pub open spec fn module_skip_mount(m: ModuleDir) -> bool {
    m.prop matches Some(content) && spec_skip_mount(parsed_props(content@))
}

/// The action the boot pass takes on an installed module: skip it when its
/// metadata is invalid or it is disabled; otherwise activate it — mount
/// unless `skip_mount` is set, and run its boot script if it has one.
pub open spec fn spec_init_action(name: Seq<char>, m: ModuleDir) -> InitAction {
    if !module_prop_ok(m, name) {
        InitAction::SkipInvalid
    } else if m.disable_flag {
        InitAction::SkipDisabled
    } else {
        InitAction::Activate {
            mount: !module_skip_mount(m),
            run_boot_script: m.has_boot_script,
        }
    }
}

/// Decide what the boot pass does with one installed module.
pub fn plan_module_init(name: &str, dir: &ModuleDir) -> (r: InitAction)
    ensures
        r == spec_init_action(name@, *dir),
{
    match &dir.prop {
        None => InitAction::SkipInvalid,
        Some(content) => {
            match read_module_prop(content.as_str(), name) {
                Err(_) => InitAction::SkipInvalid,
                Ok(p) => {
                    if dir.disable_flag {
                        InitAction::SkipDisabled
                    } else {
                        InitAction::Activate {
                            mount: !p.skip_mount,
                            run_boot_script: dir.has_boot_script,
                        }
                    }
                },
            }
        },
    }
}

/// One planned boot-pass action, for the module of the given id.
#[derive(Debug)]
pub struct InitStep {
    pub id: String,
    pub action: InitAction,
}

/// What a boot pass did and plans: the flagged modules it removed, the
/// pending modules it promoted, and the activation actions for the
/// installed modules (empty in safe mode).
#[derive(Debug)]
pub struct BootPlan {
    pub removed: Vec<String>,
    pub promoted: Vec<String>,
    pub init: Vec<InitStep>,
}

/// Some name among the first `j` of `names` views as `k`.
pub open spec fn name_in_prefix(names: Seq<String>, j: int, k: Seq<char>) -> bool {
    exists|l: int| 0 <= l < j && (#[trigger] names[l])@ == k
}

proof fn lemma_name_in_prefix_step(names: Seq<String>, j: int, k: Seq<char>)
    requires
        0 <= j < names.len(),
    ensures
        name_in_prefix(names, j + 1, k) <==> (name_in_prefix(names, j, k) || names[j]@ == k),
{
    if name_in_prefix(names, j + 1, k) {
        let l = choose|l: int| 0 <= l < j + 1 && (#[trigger] names[l])@ == k;
        if l < j {
            assert(name_in_prefix(names, j, k));
        }
    }
    if names[j]@ == k {
        assert(0 <= j < j + 1 && names[j]@ == k);
    }
}

/// The boot pass.  First every installed module flagged for uninstall is
/// deleted; then every update-pending module is promoted into the installed
/// set, overwriting any same-id module; finally, unless `safe_mode` is set,
/// an activation action is planned for each installed module, in set order.
/// In safe mode nothing is mounted and no boot script runs: the plan's
/// `init` list is empty.
#[verifier::rlimit(50)]
pub fn boot_pass(state: &mut SystemState, safe_mode: bool) -> (plan: BootPlan)
    requires
        old(state).wf(),
    ensures
        final(state).wf(),
        forall|k: Seq<char>| !(#[trigger] final(state).pending@.dom().contains(k)),
        forall|k: Seq<char>| #[trigger]
            final(state).installed@.dom().contains(k) <==> old(state).pending@.dom().contains(k)
                || (old(state).installed@.dom().contains(k) && !old(state).installed@[k].uninstall_flag),
        forall|k: Seq<char>| #[trigger]
            old(state).pending@.dom().contains(k) ==> final(state).installed@[k] == old(state).pending@[k],
        forall|k: Seq<char>|
            !old(state).pending@.dom().contains(k) && #[trigger] final(state).installed@.dom().contains(k) ==> final(state).installed@[k] == old(state).installed@[k],
        forall|j: int|
            0 <= j < plan.removed@.len() ==> old(state).installed@.dom().contains(
                (#[trigger] plan.removed@[j])@,
            ) && old(state).installed@[plan.removed@[j]@].uninstall_flag,
        forall|k: Seq<char>| #[trigger]
            old(state).installed@.dom().contains(k) && old(state).installed@[k].uninstall_flag
                ==> name_in_prefix(plan.removed@, plan.removed@.len() as int, k),
        forall|j: int|
            0 <= j < plan.promoted@.len() ==> old(state).pending@.dom().contains(
                (#[trigger] plan.promoted@[j])@,
            ),
        forall|k: Seq<char>| #[trigger]
            old(state).pending@.dom().contains(k) ==> name_in_prefix(
                plan.promoted@,
                plan.promoted@.len() as int,
                k,
            ),
        safe_mode ==> plan.init@.len() == 0,
        !safe_mode ==> plan.init@.len() == final(state).installed.spec_len() && forall|j: int|
            0 <= j < plan.init@.len() ==> (#[trigger] plan.init@[j]).id@ == final(state).installed.key_seq()[j] && final(state).installed@.dom().contains(plan.init@[j].id@)
                && plan.init@[j].action == spec_init_action(
                plan.init@[j].id@,
                final(state).installed@[plan.init@[j].id@],
            ),
{
    // Remove modules flagged for uninstall: first collect their ids.
    let mut removed: Vec<String> = Vec::new();
    let n = state.installed.len();
    let mut i: usize = 0;
    while i < n
        invariant
            0 <= i <= n,
            *state == *old(state),
            state.wf(),
            n == state.installed.spec_len(),
            forall|j: int|
                0 <= j < removed@.len() ==> state.installed@.dom().contains(
                    (#[trigger] removed@[j])@,
                ) && state.installed@[removed@[j]@].uninstall_flag,
            forall|j: int|
                0 <= j < i ==> (state.installed@[#[trigger] state.installed.key_seq()[j]].uninstall_flag
                    ==> name_in_prefix(removed@, removed@.len() as int, state.installed.key_seq()[j])),
        decreases n - i,
    {
        let ghost pre_removed = removed@;
        let flagged = state.installed.dir_at(i).uninstall_flag;
        if flagged {
            let k = state.installed.key_at(i).clone();
            removed.push(k);
            proof {
                assert(removed@[pre_removed.len() as int]@ == state.installed.key_seq()[i as int]);
                assert forall|j: int|
                    0 <= j < removed@.len() implies state.installed@.dom().contains(
                    (#[trigger] removed@[j])@,
                ) && state.installed@[removed@[j]@].uninstall_flag by {
                    if j < pre_removed.len() {
                        assert(removed@[j] == pre_removed[j]);
                    }
                }
                assert forall|j: int|
                    0 <= j < i + 1 && state.installed@[#[trigger] state.installed.key_seq()[j]].uninstall_flag implies name_in_prefix(
                    removed@,
                    removed@.len() as int,
                    state.installed.key_seq()[j],
                ) by {
                    if j < i {
                        let l = choose|l: int|
                            0 <= l < pre_removed.len() && (#[trigger] pre_removed[l])@
                                == state.installed.key_seq()[j];
                        assert(removed@[l] == pre_removed[l]);
                    } else {
                        assert(removed@[pre_removed.len() as int]@
                            == state.installed.key_seq()[j]);
                    }
                }
            }
        } else {
            proof {
                assert forall|j: int|
                    0 <= j < i + 1 && state.installed@[#[trigger] state.installed.key_seq()[j]].uninstall_flag implies name_in_prefix(
                    removed@,
                    removed@.len() as int,
                    state.installed.key_seq()[j],
                ) by {}
            }
        }
        i = i + 1;
    }
    proof {
        state.installed.lemma_keys();
    }
    let ghost start_installed = state.installed@;
    let ghost removed_names = removed@;
    // Delete them.
    let m = removed.len();
    let mut d: usize = 0;
    while d < m
        invariant
            0 <= d <= m,
            m == removed@.len(),
            removed@ == removed_names,
            state.wf(),
            state.pending@ == old(state).pending@,
            forall|j: int|
                0 <= j < removed@.len() ==> start_installed.dom().contains(
                    (#[trigger] removed@[j])@,
                ) && start_installed[removed@[j]@].uninstall_flag,
            forall|k: Seq<char>| #[trigger]
                state.installed@.dom().contains(k) <==> (start_installed.dom().contains(k)
                    && !name_in_prefix(removed@, d as int, k)),
            forall|k: Seq<char>| #[trigger]
                state.installed@.dom().contains(k) ==> state.installed@[k] == start_installed[k],
        decreases m - d,
    {
        let name = &removed[d];
        delete_dir(&mut state.installed, name.as_str());
        proof {
            assert forall|k: Seq<char>| #[trigger]
                state.installed@.dom().contains(k) <==> (start_installed.dom().contains(k)
                    && !name_in_prefix(removed@, d + 1, k)) by {
                lemma_name_in_prefix_step(removed@, d as int, k);
            }
        }
        d = d + 1;
    }
    let ghost mid_installed = state.installed@;
    proof {
        // After the deletions: exactly the unflagged modules remain.
        assert forall|k: Seq<char>| #[trigger]
            mid_installed.dom().contains(k) <==> (start_installed.dom().contains(k)
                && !start_installed[k].uninstall_flag) by {
            if start_installed.dom().contains(k) {
                if start_installed[k].uninstall_flag {
                    let j = choose|j: int|
                        0 <= j < old(state).installed.key_seq().len() && old(state).installed.key_seq()[j] == k;
                    assert(name_in_prefix(removed_names, removed_names.len() as int, k));
                }
                if name_in_prefix(removed_names, removed_names.len() as int, k) {
                    let l = choose|l: int|
                        0 <= l < removed_names.len() && (#[trigger] removed_names[l])@ == k;
                    assert(start_installed[k].uninstall_flag);
                }
            }
        }
    }
    // Promote every pending module into the installed set.
    let mut promoted: Vec<String> = Vec::new();
    while state.pending.len() > 0
        invariant
            state.wf(),
            forall|k: Seq<char>| #[trigger]
                old(state).pending@.dom().contains(k) <==> state.pending@.dom().contains(k)
                    || name_in_prefix(promoted@, promoted@.len() as int, k),
            forall|j: int|
                0 <= j < promoted@.len() ==> old(state).pending@.dom().contains(
                    (#[trigger] promoted@[j])@,
                ) && !state.pending@.dom().contains(promoted@[j]@),
            forall|k: Seq<char>| #[trigger]
                state.pending@.dom().contains(k) ==> state.pending@[k] == old(state).pending@[k],
            forall|k: Seq<char>| #[trigger]
                state.installed@.dom().contains(k) <==> mid_installed.dom().contains(k)
                    || name_in_prefix(promoted@, promoted@.len() as int, k),
            forall|k: Seq<char>|
                name_in_prefix(promoted@, promoted@.len() as int, k) ==> state.installed@.dom()
                    .contains(k) && #[trigger] state.installed@[k] == old(state).pending@[k],
            forall|k: Seq<char>|
                mid_installed.dom().contains(k) && !name_in_prefix(
                    promoted@,
                    promoted@.len() as int,
                    k,
                ) ==> #[trigger] state.installed@[k] == mid_installed[k],
        decreases state.pending.spec_len(),
    {
        let ghost pre_promoted = promoted@;
        let name = state.pending.key_at(0).clone();
        let ghost k0 = name@;
        proof {
            assert(state.pending@.dom().contains(k0));
        }
        let r = move_dir(&mut state.pending, name.as_str(), &mut state.installed, name.as_str());
        promoted.push(name);
        proof {
            assert forall|k: Seq<char>|
                name_in_prefix(promoted@, promoted@.len() as int, k) <==> (name_in_prefix(
                    pre_promoted,
                    pre_promoted.len() as int,
                    k,
                ) || k == k0) by {
                lemma_name_in_prefix_step(promoted@, pre_promoted.len() as int, k);
                assert forall|l: int|
                    0 <= l < pre_promoted.len() implies (#[trigger] promoted@[l])@
                    == pre_promoted[l]@ by {
                    assert(promoted@[l] == pre_promoted[l]);
                }
                if name_in_prefix(pre_promoted, pre_promoted.len() as int, k) {
                    let l = choose|l: int|
                        0 <= l < pre_promoted.len() && (#[trigger] pre_promoted[l])@ == k;
                    assert(promoted@[l]@ == k);
                }
                assert(promoted@[pre_promoted.len() as int]@ == k0);
            }
        }
    }
    proof {
        state.pending.lemma_keys();
        assert forall|k: Seq<char>| !(#[trigger] state.pending@.dom().contains(k)) by {
            if state.pending@.dom().contains(k) {
                assert(state.pending.key_seq().contains(k));
            }
        }
    }
    // Plan the activation of each installed module, unless in safe mode.
    let mut init: Vec<InitStep> = Vec::new();
    if !safe_mode {
        let n2 = state.installed.len();
        let mut t: usize = 0;
        while t < n2
            invariant
                0 <= t <= n2,
                state.wf(),
                n2 == state.installed.spec_len(),
                init@.len() == t,
                forall|j: int|
                    0 <= j < t ==> (#[trigger] init@[j]).id@ == state.installed.key_seq()[j]
                        && state.installed@.dom().contains(init@[j].id@) && init@[j].action
                        == spec_init_action(init@[j].id@, state.installed@[init@[j].id@]),
            decreases n2 - t,
        {
            let name = state.installed.key_at(t).clone();
            let action = plan_module_init(name.as_str(), state.installed.dir_at(t));
            init.push(InitStep { id: name, action });
            t = t + 1;
        }
    }
    BootPlan { removed, promoted, init }
}

} // verus!
