//! Serving NBD reads and writes from a generated volume: the pieces a read is
//! made of and the real-disk writes a write becomes, sector by sector. The
//! caller reads the real files, performs the writes and sends the replies.
use vstd::prelude::*;
use crate::error::IoError;
use crate::exfat::read_plan::{pieces_view, PieceView, ReadPiece};
use crate::exfat::volume::VirtualVolume;
use crate::types::SectorContent;
use crate::write_back::{sector_write_matches, WriteBackAction, WriteBackManager};

verus! {

broadcast use vstd::std_specs::vec::group_vec_axioms;

/// The piece of a read that sector `s` gives: its metadata, its file's valid
/// bytes zero-padded to a sector, or a zero sector; `None` for a sector of a
/// blocked file.
pub open spec fn sector_piece_of(volume: VirtualVolume, s: u64) -> Option<PieceView> {
    if s >= volume.spec_layout().total_sectors {
        Some(PieceView::Zeros(512))
    } else if volume.spec_metadata().contains_key(s) {
        Some(PieceView::Bytes(volume.spec_metadata()[s]))
    } else if volume.spec_files().contains_key(s) {
        let f = volume.spec_files()[s];
        if f.blocked {
            None
        } else {
            Some(
                PieceView::File { real_path: f.real_path, offset: f.offset, read_len: f.valid_bytes as nat, take: 512 },
            )
        }
    } else {
        Some(PieceView::Zeros(512))
    }
}

/// The pieces of the `n` sectors from `first`; `None` when one of them
/// belongs to a blocked file.
pub open spec fn volume_pieces(volume: VirtualVolume, first: int, n: int) -> Option<Seq<PieceView>>
    decreases n,
{
    if n <= 0 {
        Some(seq![])
    } else {
        match volume_pieces(volume, first, n - 1) {
            None => None,
            Some(ps) => match sector_piece_of(volume, (first + n - 1) as u64) {
                None => None,
                Some(p) => Some(ps.push(p)),
            },
        }
    }
}

/// The pieces of a read of `len` bytes at byte `from`: the whole sectors it
/// covers from the sector of `from` (a partial last sector is dropped);
/// `None` when one of them belongs to a blocked file, which the reply
/// reports as an I/O error.
pub fn volume_read_pieces(volume: &VirtualVolume, from: u64, len: u32) -> (r: Option<Vec<ReadPiece>>)
    ensures
        match volume_pieces(*volume, (from / 512) as int, (len / 512) as int) {
            Some(ps) => r matches Some(v) && pieces_view(v@) == ps,
            None => r is None,
        },
{
    let first: u64 = from / 512;
    let n: u32 = len / 512;
    let mut out: Vec<ReadPiece> = Vec::new();
    let mut i: u32 = 0;
    while i < n
        invariant
            i <= n,
            n == len / 512,
            first == from / 512,
            first + n <= u64::MAX,
            volume_pieces(*volume, first as int, i as int) == Some(pieces_view(out@)),
        decreases n - i,
    {
        let s: u64 = first + i as u64;
        let ghost before = out@;
        let piece = match volume.read_sector(s) {
            SectorContent::Metadata(d) => ReadPiece::Bytes(d),
            SectorContent::FileData { real_path, offset, valid_bytes, blocked } => {
                if blocked {
                    proof {
                        assert(volume_pieces(*volume, first as int, i + 1) is None);
                        lemma_pieces_none_extends(*volume, first as int, i + 1, n as int);
                    }
                    return None;
                }
                ReadPiece::File { real_path, offset, read_len: valid_bytes as usize, take: 512 }
            },
            SectorContent::Zero => ReadPiece::Zeros(512),
        };
        out.push(piece);
        proof {
            assert(pieces_view(out@) =~= pieces_view(before).push(crate::exfat::read_plan::piece_view(piece)));
        }
        i = i + 1;
    }
    Some(out)
}

/// Once a blocked sector is met, longer reads fail too.
proof fn lemma_pieces_none_extends(volume: VirtualVolume, first: int, i: int, n: int)
    requires
        i <= n,
        volume_pieces(volume, first, i) is None,
    ensures
        volume_pieces(volume, first, n) is None,
    decreases n - i,
{
    if i < n {
        lemma_pieces_none_extends(volume, first, i + 1, n);
    }
}

/// A write of sector `s` goes ahead: it lies on the disk and is neither
/// directory metadata, unmapped, nor part of a blocked file.
pub open spec fn sector_write_ok(volume: VirtualVolume, s: u64) -> bool {
    &&& s < volume.spec_layout().total_sectors
    &&& volume.spec_metadata().contains_key(s) ==> volume.spec_layout().spec_sector_to_cluster(s as int) is None
    &&& !volume.spec_metadata().contains_key(s) ==> volume.spec_files().contains_key(s) && !volume.spec_files()[s].blocked
}

/// Sector `i` of a request at byte `from`.
pub open spec fn nth_sector(from: u64, i: int) -> u64 {
    ((from / 512) + i) as u64
}

/// The real-disk writes of a write of `data` at byte `from`: one action per
/// whole sector of `data` (a partial last sector is dropped), in order; the
/// first refused sector's error when one is refused (nothing is refused on
/// a read-only disk).
pub fn volume_write_actions(
    manager: &mut WriteBackManager,
    volume: &VirtualVolume,
    from: u64,
    data: &[u8],
) -> (r: Result<Vec<WriteBackAction>, IoError>)
    requires
        volume.wf(),
    ensures
        final(manager).spec_readonly() == old(manager).spec_readonly(),
        old(manager).spec_readonly() ==> (r matches Ok(v) && v@.len() == data@.len() / 512 && forall|i: int|
            0 <= i < v@.len() ==> #[trigger] v@[i] == WriteBackAction::Skip),
        !old(manager).spec_readonly() ==> ((forall|i: int|
            0 <= i < data@.len() / 512 ==> #[trigger] sector_write_ok(*volume, nth_sector(from, i))) <==> r is Ok),
        !old(manager).spec_readonly() ==> (r matches Ok(v) ==> v@.len() == data@.len() / 512 && forall|i: int|
            0 <= i < v@.len() ==> sector_write_matches(
                *volume,
                nth_sector(from, i),
                512,
                Ok::<WriteBackAction, IoError>(#[trigger] v@[i]),
            )),
        !old(manager).spec_readonly() ==> (r matches Err(e) ==> exists|i: int|
            0 <= i < data@.len() / 512 && (forall|j: int|
                0 <= j < i ==> #[trigger] sector_write_ok(*volume, nth_sector(from, j))) && !#[trigger] sector_write_ok(
                *volume,
                nth_sector(from, i),
            ) && sector_write_matches(*volume, nth_sector(from, i), 512, Err::<WriteBackAction, IoError>(e))),
{
    let first: u64 = from / 512;
    let n: usize = data.len() / 512;
    let mut out: Vec<WriteBackAction> = Vec::new();
    let mut i: usize = 0;
    while i < n
        invariant
            i <= n == data@.len() / 512,
            first == from / 512,
            first as int + n <= u64::MAX,
            volume.wf(),
            manager.spec_readonly() == old(manager).spec_readonly(),
            out@.len() == i,
            forall|k: int| 0 <= k < i ==> #[trigger] sector_write_ok(*volume, nth_sector(from, k)) || manager.spec_readonly(),
            forall|k: int|
                0 <= k < i ==> (if manager.spec_readonly() {
                    out@[k] == WriteBackAction::Skip
                } else {
                    sector_write_matches(*volume, nth_sector(from, k), 512, Ok::<WriteBackAction, IoError>(#[trigger] out@[k]))
                }),
        decreases n - i,
    {
        let s: u64 = first + i as u64;
        assert(s == nth_sector(from, i as int));
        let dl: usize = data.len();
        assert(i * 512 + 512 <= dl) by (nonlinear_arith)
            requires
                i < n,
                n == dl / 512,
        ;
        let chunk = vstd::slice::slice_subrange(data, i * 512, i * 512 + 512);
        let res = manager.handle_write(s, chunk, volume);
        match res {
            Ok(a) => {
                proof {
                    if !manager.spec_readonly() {
                        assert(sector_write_ok(*volume, s));
                    }
                }
                out.push(a);
            },
            Err(e) => {
                proof {
                    assert(!sector_write_ok(*volume, s));
                }
                return Err(e);
            },
        }
        i = i + 1;
    }
    Ok(out)
}

} // verus!
