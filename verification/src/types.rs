//! Core data types of the file access engine.
use vstd::prelude::*;
use vstd::string::StringSliceAdditionalSpecFns;

verus! {

/// Fixed text that the host reads in place of a file blocked by policy.
pub const BLOCKED_PLACEHOLDER_TEXT: &'static str = "该文件已被 USB 安全策略禁止访问。\n如需使用该文件，请联系管理员确认策略配置。\n";

/// The UTF-8 byte-order mark, so that Windows Notepad recognises the text.
pub open spec fn utf8_bom() -> Seq<u8> {
    seq![0xEFu8, 0xBBu8, 0xBFu8]
}

/// The bytes of the blocked-file placeholder: BOM followed by the UTF-8 text.
pub open spec fn spec_placeholder_bytes() -> Seq<u8> {
    utf8_bom() + BLOCKED_PLACEHOLDER_TEXT.spec_bytes()
}

proof fn lemma_encode_utf8_len(chars: Seq<char>)
    ensures
        vstd::utf8::encode_utf8(chars).len() <= 4 * chars.len(),
    decreases chars.len(),
{
    if chars.len() > 0 {
        lemma_encode_utf8_len(chars.drop_first());
    }
}

/// The placeholder fits in one cluster.
pub proof fn lemma_placeholder_short()
    ensures
        spec_placeholder_bytes().len() <= 4096,
{
    reveal_strlit("该文件已被 USB 安全策略禁止访问。\n如需使用该文件，请联系管理员确认策略配置。\n");
    lemma_encode_utf8_len(BLOCKED_PLACEHOLDER_TEXT@);
}

/// Returns the placeholder content of a blocked file.
pub fn blocked_placeholder_bytes() -> (r: Vec<u8>)
    ensures
        r@ == spec_placeholder_bytes(),
{
    let mut bytes: Vec<u8> = vec![0xEFu8, 0xBBu8, 0xBFu8];
    assert(bytes@ =~= utf8_bom());
    bytes.extend_from_slice(BLOCKED_PLACEHOLDER_TEXT.as_bytes());
    bytes
}

/// Executable file type (level-2 detection).
#[derive(Debug, Clone, Copy, PartialEq, Eq, Structural)]
pub enum ExecFileType {
    /// Windows PE executable.
    Pe,
    /// Windows DLL.
    Dll,
    /// Linux ELF executable.
    Elf,
}

/// A node of the controlled file tree built from the real USB disk.
#[derive(Debug)]
pub struct ControlledEntry {
    /// Path of the real file.
    pub real_path: String,
    /// Name shown to the host.
    pub virtual_name: String,
    /// File size in bytes.
    pub file_size: u64,
    pub is_dir: bool,
    /// Marked as a virus (level 1).
    pub is_virus: bool,
    /// Executable type (level 2), `None` when not executable.
    pub exec_type: Option<ExecFileType>,
    /// Lower-case extension without the dot.
    pub extension: String,
    /// Referenced by autorun.inf (level 4).
    pub is_autorun_target: bool,
    /// Is autorun.inf itself.
    pub is_autorun_inf: bool,
    /// A shell script (.sh / .bash) in the root directory.
    pub is_root_shell_script: bool,
    /// Children (directories only).
    pub children: Vec<ControlledEntry>,
}

/// Policy snapshot read once when the disk is inserted.
#[derive(Debug)]
pub struct PolicySnapshot {
    /// Level-2 executable control.
    pub exec_control_enabled: bool,
    /// Level-3 file type blacklist.
    pub file_type_blacklist_enabled: bool,
    /// Level-4 autorun control.
    pub auto_read_control_enabled: bool,
    /// Blacklisted extensions.
    pub blacklist_extensions: Vec<String>,
    /// Permission: 0 read-only, 1 read-write.
    pub permission: i32,
}

/// Access decision.
#[derive(Debug)]
pub enum AccessDecision {
    /// Access allowed.
    Allow,
    /// Access denied, with the policy level that matched.
    Deny(String),
}

/// Content kind of a virtual sector.
#[derive(Debug)]
pub enum SectorContent {
    /// Pre-generated metadata.
    Metadata(Vec<u8>),
    /// File data mapped to a real file and offset.
    FileData { real_path: String, offset: u64, valid_bytes: u32, blocked: bool },
    /// Zero fill.
    Zero,
}

impl PolicySnapshot {
    /// A copy of the snapshot.
    pub fn duplicate(&self) -> (s: Self)
        ensures
            s.exec_control_enabled == self.exec_control_enabled,
            s.file_type_blacklist_enabled == self.file_type_blacklist_enabled,
            s.auto_read_control_enabled == self.auto_read_control_enabled,
            s.permission == self.permission,
            s.blacklist_extensions@.len() == self.blacklist_extensions@.len(),
            forall|i: int| 0 <= i < s.blacklist_extensions@.len() ==> #[trigger] s.blacklist_extensions@[i]@
                == self.blacklist_extensions@[i]@,
    {
        let mut exts: Vec<String> = Vec::new();
        let mut i: usize = 0;
        while i < self.blacklist_extensions.len()
            invariant
                i <= self.blacklist_extensions@.len(),
                exts@.len() == i,
                forall|k: int| 0 <= k < i ==> #[trigger] exts@[k]@ == self.blacklist_extensions@[k]@,
            decreases self.blacklist_extensions@.len() - i,
        {
            exts.push(self.blacklist_extensions[i].clone());
            i = i + 1;
        }
        PolicySnapshot {
            exec_control_enabled: self.exec_control_enabled,
            file_type_blacklist_enabled: self.file_type_blacklist_enabled,
            auto_read_control_enabled: self.auto_read_control_enabled,
            blacklist_extensions: exts,
            permission: self.permission,
        }
    }
}

} // verus!
