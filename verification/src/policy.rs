//! Five-level access policy: virus mark, executable control, file type
//! blacklist, autorun control (write protection is enforced by the gadget).
//! The first level that matches denies access.
use vstd::prelude::*;
use vstd::string::StringExecFns;
use crate::types::{AccessDecision, ControlledEntry, ExecFileType, PolicySnapshot};

verus! {

/// The name under which an executable type appears in a denial reason.
pub open spec fn exec_type_name(t: ExecFileType) -> Seq<char> {
    match t {
        ExecFileType::Pe => "Pe"@,
        ExecFileType::Dll => "Dll"@,
        ExecFileType::Elf => "Elf"@,
    }
}

/// Whether `ext` is one of the blacklisted extensions.
pub open spec fn extension_listed(exts: Seq<String>, ext: Seq<char>) -> bool {
    exists|i: int| 0 <= i < exts.len() && (#[trigger] exts[i])@ == ext
}

/// The denial reason for `entry` under `snapshot`, or `None` when access is allowed.
pub open spec fn spec_denial(entry: ControlledEntry, snapshot: PolicySnapshot) -> Option<Seq<char>> {
    if entry.is_dir {
        None
    } else if entry.is_virus {
        Some("L1:病毒文件禁止访问"@)
    } else if snapshot.exec_control_enabled && entry.exec_type is Some {
        Some("L2:可执行文件控制("@ + exec_type_name(entry.exec_type->0) + ")"@)
    } else if snapshot.file_type_blacklist_enabled && entry.extension@.len() > 0 && extension_listed(
        snapshot.blacklist_extensions@,
        entry.extension@,
    ) {
        Some("L3:文件类型黑名单("@ + entry.extension@ + ")"@)
    } else if snapshot.auto_read_control_enabled && entry.is_autorun_inf {
        Some("L4:自运行控制(autorun.inf)"@)
    } else if snapshot.auto_read_control_enabled && entry.is_autorun_target {
        Some("L4:自运行控制(autorun引用文件)"@)
    } else if snapshot.auto_read_control_enabled && entry.is_root_shell_script {
        Some("L4:自运行控制(根目录shell脚本)"@)
    } else {
        None
    }
}

/// Whether `ext` is listed in `exts`.
fn contains_extension(exts: &Vec<String>, ext: &String) -> (r: bool)
    ensures
        r == extension_listed(exts@, ext@),
{
    let mut i: usize = 0;
    while i < exts.len()
        invariant
            i <= exts@.len(),
            forall|k: int| 0 <= k < i ==> (#[trigger] exts@[k])@ != ext@,
        decreases exts@.len() - i,
    {
        if exts[i] == *ext {
            return true;
        }
        i = i + 1;
    }
    false
}

/// The access decision for `entry` under `snapshot`: directories are always
/// allowed; a file is denied by the first policy level that matches it.
pub fn evaluate_access(entry: &ControlledEntry, snapshot: &PolicySnapshot) -> (r: AccessDecision)
    ensures
        match spec_denial(*entry, *snapshot) {
            None => r is Allow,
            Some(reason) => r matches AccessDecision::Deny(s) && s@ == reason,
        },
        entry.is_dir ==> r is Allow,
        !entry.is_dir && entry.is_virus ==> (r matches AccessDecision::Deny(s) && s@
            == "L1:病毒文件禁止访问"@),
{
    if entry.is_dir {
        return AccessDecision::Allow;
    }
    if entry.is_virus {
        return AccessDecision::Deny(String::from_str("L1:病毒文件禁止访问"));
    }
    if snapshot.exec_control_enabled {
        if let Some(t) = entry.exec_type {
            let name = match t {
                ExecFileType::Pe => "Pe",
                ExecFileType::Dll => "Dll",
                ExecFileType::Elf => "Elf",
            };
            let mut s = String::from_str("L2:可执行文件控制(");
            s.append(name);
            s.append(")");
            return AccessDecision::Deny(s);
        }
    }
    if snapshot.file_type_blacklist_enabled && !entry.extension.as_str().is_empty()
        && contains_extension(&snapshot.blacklist_extensions, &entry.extension) {
        let mut s = String::from_str("L3:文件类型黑名单(");
        s.append(entry.extension.as_str());
        s.append(")");
        return AccessDecision::Deny(s);
    }
    if snapshot.auto_read_control_enabled {
        if entry.is_autorun_inf {
            return AccessDecision::Deny(String::from_str("L4:自运行控制(autorun.inf)"));
        }
        if entry.is_autorun_target {
            return AccessDecision::Deny(String::from_str("L4:自运行控制(autorun引用文件)"));
        }
        if entry.is_root_shell_script {
            return AccessDecision::Deny(String::from_str("L4:自运行控制(根目录shell脚本)"));
        }
    }
    AccessDecision::Allow
}

} // verus!
