//! Executable detection from a file's leading bytes: ELF (`\x7fELF`), or PE
//! (an `MZ` header whose `e_lfanew` field leads to `PE\0\0`), told apart from
//! a DLL by the `IMAGE_FILE_DLL` flag. The caller reads the bytes each step
//! asks for.
use vstd::prelude::*;
use crate::bytes::{get_le32, read_le16, read_le32};
use crate::types::ExecFileType;

verus! {

/// The `IMAGE_FILE_DLL` flag of the COFF characteristics.
pub const IMAGE_FILE_DLL: u16 = 0x2000;

/// What the first bytes of a file say.
#[derive(Debug, Clone, Copy, PartialEq, Eq, Structural)]
pub enum HeaderKind {
    /// Fewer than four bytes, or neither ELF nor MZ: not executable.
    NotExecutable,
    /// An ELF executable.
    Elf,
    /// An MZ header: the PE header is to be looked at.
    Mz,
}

/// The kind of a file whose first bytes (at most four are looked at) are `h`.
pub open spec fn header_kind_spec(h: Seq<u8>) -> HeaderKind {
    if h.len() < 4 {
        HeaderKind::NotExecutable
    } else if h[0] == 0x7F && h[1] == 0x45 && h[2] == 0x4C && h[3] == 0x46 {
        HeaderKind::Elf
    } else if h[0] == 0x4D && h[1] == 0x5A {
        HeaderKind::Mz
    } else {
        HeaderKind::NotExecutable
    }
}

/// The kind of a file whose first bytes read are `header`.
pub fn header_kind(header: &[u8]) -> (r: HeaderKind)
    ensures
        r == header_kind_spec(header@),
{
    if header.len() < 4 {
        return HeaderKind::NotExecutable;
    }
    if header[0] == 0x7F && header[1] == 0x45 && header[2] == 0x4C && header[3] == 0x46 {
        return HeaderKind::Elf;
    }
    if header[0] == 0x4D && header[1] == 0x5A {
        return HeaderKind::Mz;
    }
    HeaderKind::NotExecutable
}

/// The file offset of the PE signature, from the four bytes of `e_lfanew`
/// (at offset 0x3C).
pub fn pe_offset(lfanew: &[u8; 4]) -> (r: u64)
    ensures
        r == read_le32(lfanew@, 0),
{
    get_le32(lfanew.as_slice(), 0) as u64
}

/// The file offset of the COFF characteristics field: 22 bytes past the PE
/// signature; `None` when that passes the largest offset.
pub fn characteristics_offset(pe_offset: u64) -> (r: Option<u64>)
    ensures
        pe_offset + 22 <= u64::MAX ==> r == Some((pe_offset + 22) as u64),
        pe_offset + 22 > u64::MAX ==> r is None,
{
    if pe_offset > u64::MAX - 22 {
        None
    } else {
        Some(pe_offset + 22)
    }
}

/// The executable type of a PE file: `None` unless the signature is
/// `PE\0\0`; a DLL when the characteristics (two little-endian bytes) carry
/// the DLL flag.
pub open spec fn pe_type_spec(sig: Seq<u8>, chars: Seq<u8>) -> Option<ExecFileType> {
    if !(sig[0] == 0x50 && sig[1] == 0x45 && sig[2] == 0 && sig[3] == 0) {
        None
    } else if read_le16(chars[0], chars[1]) & IMAGE_FILE_DLL != 0 {
        Some(ExecFileType::Dll)
    } else {
        Some(ExecFileType::Pe)
    }
}

/// The executable type of a PE file from its signature and characteristics.
pub fn pe_type(sig: &[u8; 4], characteristics: &[u8; 2]) -> (r: Option<ExecFileType>)
    ensures
        r == pe_type_spec(sig@, characteristics@),
{
    if !(sig[0] == 0x50 && sig[1] == 0x45 && sig[2] == 0 && sig[3] == 0) {
        return None;
    }
    let c: u16 = characteristics[0] as u16 + 256 * characteristics[1] as u16;
    assert(c == read_le16(characteristics@[0], characteristics@[1]));
    if c & IMAGE_FILE_DLL != 0 {
        Some(ExecFileType::Dll)
    } else {
        Some(ExecFileType::Pe)
    }
}

} // verus!
