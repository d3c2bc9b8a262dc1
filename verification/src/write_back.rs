//! Writing host writes back to the real USB disk: which file bytes a sector
//! write becomes, or why it is refused.
use vstd::prelude::*;
use crate::error::{io_error, ErrorKind, IoError};
use crate::exfat::volume::VirtualVolume;
use crate::types::SectorContent;
use vstd::string::StringExecFns;

verus! {

/// What a sector write becomes on the real disk.
#[derive(Debug, PartialEq, Eq)]
pub enum WriteBackAction {
    /// Nothing to write.
    Skip,
    /// Write the first `len` bytes of the sector data at `offset` of the real file.
    WriteFile { real_path: String, offset: u64, len: usize },
}

/// What writing `len` bytes to `sector` of `volume` becomes when the disk is
/// writable: `Unsupported` past the end, for unmapped sectors and for
/// directory metadata; nothing for other metadata; `PermissionDenied` for a
/// blocked file; else the sector's valid bytes (at most `len`, taken modulo
/// 2^32) at its offset of the real file.
pub open spec fn sector_write_matches(volume: VirtualVolume, sector: u64, len: nat, r: Result<WriteBackAction, IoError>) -> bool {
    let total = volume.spec_layout().total_sectors;
    if sector >= total || (!volume.spec_metadata().contains_key(sector) && !volume.spec_files().contains_key(sector)) {
        r matches Err(e) && e.kind == ErrorKind::Unsupported
    } else if volume.spec_metadata().contains_key(sector) {
        if volume.spec_layout().spec_sector_to_cluster(sector as int) is Some {
            r matches Err(e) && e.kind == ErrorKind::Unsupported
        } else {
            r matches Ok(WriteBackAction::Skip)
        }
    } else {
        let f = volume.spec_files()[sector];
        if f.blocked {
            r matches Err(e) && e.kind == ErrorKind::PermissionDenied
        } else {
            r matches Ok(WriteBackAction::WriteFile { real_path, offset, len: n }) && real_path@ == f.real_path
                && offset == f.offset && n == (if (f.valid_bytes as int) < (len as int % 0x1_0000_0000) {
                f.valid_bytes as int
            } else {
                len as int % 0x1_0000_0000
            })
        }
    }
}

/// Writes host writes back to the real disk mounted at `mount_path`.
pub struct WriteBackManager {
    mount_path: String,
    readonly: bool,
}

impl WriteBackManager {
    pub closed spec fn spec_readonly(&self) -> bool {
        self.readonly
    }

    pub closed spec fn spec_mount_path(&self) -> Seq<char> {
        self.mount_path@
    }

    /// A manager for the disk at `mount_path`.
    pub fn new(mount_path: &str, readonly: bool) -> (m: Self)
        ensures
            m.spec_readonly() == readonly,
            m.spec_mount_path() == mount_path@,
    {
        WriteBackManager { mount_path: String::from_str(mount_path), readonly }
    }

    /// What the write of `data` to `sector` becomes: nothing when read-only or
    /// for non-directory metadata; the valid bytes of a file data sector;
    /// `PermissionDenied` for a blocked file; `Unsupported` for directory
    /// metadata and for unmapped sectors.
    pub fn handle_write(&mut self, sector: u64, data: &[u8], volume: &VirtualVolume) -> (r: Result<WriteBackAction, IoError>)
        requires
            volume.wf(),
        ensures
            final(self).spec_readonly() == old(self).spec_readonly(),
            old(self).spec_readonly() ==> r matches Ok(WriteBackAction::Skip),
            !old(self).spec_readonly() ==> sector_write_matches(*volume, sector, data@.len(), r),
    {
        if self.readonly {
            return Ok(WriteBackAction::Skip);
        }
        match volume.read_sector(sector) {
            SectorContent::FileData { real_path, offset, valid_bytes, blocked } => {
                if blocked {
                    return Err(io_error(ErrorKind::PermissionDenied, "file is blocked by policy; write refused"));
                }
                let dl: u32 = ((data.len() as u64) % 0x1_0000_0000u64) as u32;
                let n: u32 = if valid_bytes < dl { valid_bytes } else { dl };
                Ok(WriteBackAction::WriteFile { real_path, offset, len: n as usize })
            },
            SectorContent::Metadata(_) => {
                if volume.is_directory_sector(sector) {
                    return Err(io_error(ErrorKind::Unsupported, "directory changes are not supported"));
                }
                Ok(WriteBackAction::Skip)
            },
            SectorContent::Zero => Err(io_error(ErrorKind::Unsupported, "creating new files is not supported")),
        }
    }

    /// Flushes pending writes: there are none to hold.
    pub fn flush(&mut self) -> (r: Result<(), IoError>)
        ensures
            r is Ok,
            final(self).spec_readonly() == old(self).spec_readonly(),
    {
        Ok(())
    }
}

} // verus!
