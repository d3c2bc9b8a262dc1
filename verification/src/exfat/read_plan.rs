//! What a read of the virtual disk returns, sector by sector: bytes the state
//! holds, zeros, or a slice of a real file that the caller reads.
use vstd::prelude::*;
use crate::error::{io_error, ErrorKind, IoError};
use crate::exfat::runtime_state::{ExfatRuntimeState, VolumeContentView};
use crate::exfat::sector_owner::SectorOwner;
use crate::types::{blocked_placeholder_bytes, spec_placeholder_bytes, SectorContent};
use crate::vfs::index::find_id;
use crate::vfs::node::{FileViewSpec, NodeId, VfsFileView};

verus! {

broadcast use vstd::std_specs::vec::group_vec_axioms;

/// One piece of a read.
#[derive(Debug)]
pub enum ReadPiece {
    /// These bytes.
    Bytes(Vec<u8>),
    /// This many zero bytes.
    Zeros(usize),
    /// Up to `read_len` bytes of the real file at `offset`, zero-padded to `take`.
    File { real_path: String, offset: u64, read_len: usize, take: usize },
}

/// Mathematical form of a read piece.
pub enum PieceView {
    Bytes(Seq<u8>),
    Zeros(nat),
    File { real_path: Seq<char>, offset: u64, read_len: nat, take: nat },
}

/// The view of a read piece.
pub open spec fn piece_view(p: ReadPiece) -> PieceView {
    match p {
        ReadPiece::Bytes(b) => PieceView::Bytes(b@),
        ReadPiece::Zeros(n) => PieceView::Zeros(n as nat),
        ReadPiece::File { real_path, offset, read_len, take } => PieceView::File {
            real_path: real_path@,
            offset,
            read_len: read_len as nat,
            take: take as nat,
        },
    }
}

/// The views of a list of read pieces.
pub open spec fn pieces_view(v: Seq<ReadPiece>) -> Seq<PieceView> {
    v.map_values(|p: ReadPiece| piece_view(p))
}

/// `take` bytes of `d` from `start` on, zero past its end.
pub open spec fn window(d: Seq<u8>, start: int, take: nat) -> Seq<u8> {
    Seq::new(take, |i: int| if 0 <= start + i < d.len() { d[start + i] } else { 0u8 })
}

/// `v - s`, or zero when `s` is larger.
pub open spec fn saturating_sub(v: u32, s: int) -> int {
    if v >= s {
        v - s
    } else {
        0
    }
}

/// The smaller of two numbers.
pub open spec fn min_int(a: int, b: int) -> int {
    if a <= b {
        a
    } else {
        b
    }
}

/// What `take` bytes of `sector` from `so` on read as.
pub open spec fn sector_piece(st: ExfatRuntimeState, sector: u64, so: int, take: nat) -> Result<PieceView, ErrorKind> {
    if st.spec_overlay().contains_key(sector) {
        Ok(PieceView::Bytes(window(st.spec_overlay()[sector], so, take)))
    } else {
        match st.spec_metadata().spec_owner(sector) {
            SectorOwner::FileData { node_id, file_offset, valid_bytes } => {
                let read_len = min_int(take as int, saturating_sub(valid_bytes, so));
                if read_len == 0 {
                    Ok(PieceView::Zeros(take))
                } else {
                    match find_id(st.spec_nodes(), NodeId(node_id)) {
                        None => Err(ErrorKind::NotFound),
                        Some(i) => if st.spec_nodes()[i].file_view matches Some(FileViewSpec::Blocked { .. }) {
                            Ok(PieceView::Bytes(window(spec_placeholder_bytes(), file_offset + so, take)))
                        } else {
                            Ok(
                                PieceView::File {
                                    real_path: st.spec_nodes()[i].real_path,
                                    offset: ((file_offset + so) % 0x1_0000_0000_0000_0000) as u64,
                                    read_len: read_len as nat,
                                    take,
                                },
                            )
                        },
                    }
                }
            },
            SectorOwner::AllocatedZero { node_id, file_offset } => match find_id(st.spec_nodes(), NodeId(node_id)) {
                None => Err(ErrorKind::NotFound),
                Some(i) => if st.spec_nodes()[i].file_view matches Some(FileViewSpec::Blocked { .. }) {
                    Ok(PieceView::Zeros(take))
                } else {
                    Ok(
                        PieceView::File {
                            real_path: st.spec_nodes()[i].real_path,
                            offset: ((file_offset + so) % 0x1_0000_0000_0000_0000) as u64,
                            read_len: take,
                            take,
                        },
                    )
                },
            },
            SectorOwner::OutOfRange => Err(ErrorKind::UnexpectedEof),
            _ => match st.spec_volume_content(sector) {
                VolumeContentView::Metadata(d) => Ok(PieceView::Bytes(window(d, so, take))),
                VolumeContentView::FileData(f) => Ok(
                    PieceView::File {
                        real_path: f.real_path,
                        offset: ((f.offset + so) % 0x1_0000_0000_0000_0000) as u64,
                        read_len: min_int(take as int, saturating_sub(f.valid_bytes, so)) as nat,
                        take,
                    },
                ),
                VolumeContentView::Zero => Ok(PieceView::Zeros(take)),
            },
        }
    }
}

/// A sector of a blocked file (its data or its zero-filled allocation) that
/// no committed write covers reads as the placeholder's bytes or as zeros:
/// never from the real file, whatever its real path.
pub proof fn lemma_blocked_sector_reads_placeholder(st: ExfatRuntimeState, sector: u64, so: int, take: nat)
    requires
        !st.spec_overlay().contains_key(sector),
        match st.spec_metadata().spec_owner(sector) {
            SectorOwner::FileData { node_id, .. } => find_id(st.spec_nodes(), NodeId(node_id)) matches Some(i)
                && st.spec_nodes()[i].file_view matches Some(FileViewSpec::Blocked { .. }),
            SectorOwner::AllocatedZero { node_id, .. } => find_id(st.spec_nodes(), NodeId(node_id)) matches Some(i)
                && st.spec_nodes()[i].file_view matches Some(FileViewSpec::Blocked { .. }),
            _ => false,
        },
    ensures
        sector_piece(st, sector, so, take) matches Ok(p) && !(p is File),
        match st.spec_metadata().spec_owner(sector) {
            SectorOwner::FileData { file_offset, valid_bytes, .. } => sector_piece(st, sector, so, take) == if min_int(
                take as int,
                saturating_sub(valid_bytes, so),
            ) == 0 {
                Ok::<PieceView, ErrorKind>(PieceView::Zeros(take))
            } else {
                Ok::<PieceView, ErrorKind>(PieceView::Bytes(window(spec_placeholder_bytes(), file_offset + so, take)))
            },
            _ => sector_piece(st, sector, so, take) == Ok::<PieceView, ErrorKind>(PieceView::Zeros(take)),
        },
{
}

/// A whole-sector read of a sector of a blocked file (its data or its
/// zero-filled allocation) that no committed write covers succeeds and gives
/// the placeholder's bytes at the sector's file offset (zero past their end),
/// or zeros where the sector holds no valid byte or only allocated space:
/// never the real file, whatever its real path.
pub proof fn lemma_blocked_sector_read(st: ExfatRuntimeState, sector: u64)
    requires
        st.wf(),
        sector * 512 + 512 <= u64::MAX,
        !st.spec_overlay().contains_key(sector),
        match st.spec_metadata().spec_owner(sector) {
            SectorOwner::FileData { node_id, .. } => find_id(st.spec_nodes(), NodeId(node_id)) matches Some(i)
                && st.spec_nodes()[i].file_view matches Some(FileViewSpec::Blocked { .. }),
            SectorOwner::AllocatedZero { node_id, .. } => find_id(st.spec_nodes(), NodeId(node_id)) matches Some(i)
                && st.spec_nodes()[i].file_view matches Some(FileViewSpec::Blocked { .. }),
            _ => false,
        },
    ensures
        spec_read_plan(st, (sector * 512) as u64, 512) == Ok::<Seq<PieceView>, ErrorKind>(
            seq![
                match st.spec_metadata().spec_owner(sector) {
                    SectorOwner::FileData { file_offset, valid_bytes, .. } => if valid_bytes == 0 {
                        PieceView::Zeros(512)
                    } else {
                        PieceView::Bytes(window(spec_placeholder_bytes(), file_offset as int, 512))
                    },
                    _ => PieceView::Zeros(512),
                },
            ],
        ),
{
    st.lemma_owned_sector_on_disk(sector);
    lemma_blocked_sector_reads_placeholder(st, sector, 0, 512);
    let off = (sector * 512) as nat;
    assert(off / 512 == sector && off % 512 == 0) by (nonlinear_arith)
        requires
            off == sector * 512,
    ;
    assert(off + 512 <= st.spec_layout().total_sectors * 512) by (nonlinear_arith)
        requires
            off == sector * 512,
            sector < st.spec_layout().total_sectors,
    ;
    assert(plan_from(st, off + 512, 0) == Ok::<Seq<PieceView>, ErrorKind>(Seq::<PieceView>::empty()));
    let p = sector_piece(st, sector, 0, 512)->Ok_0;
    assert(seq![p] + Seq::<PieceView>::empty() =~= seq![p]);
}

/// The pieces of a read of `remaining` bytes from byte `current` on.
pub open spec fn plan_from(st: ExfatRuntimeState, current: nat, remaining: nat) -> Result<Seq<PieceView>, ErrorKind>
    decreases remaining,
{
    if remaining == 0 {
        Ok(seq![])
    } else {
        let so = (current % 512) as int;
        let take = min_int(512 - so, remaining as int) as nat;
        match sector_piece(st, (current / 512) as u64, so, take) {
            Err(k) => Err(k),
            Ok(p) => match plan_from(st, current + take, (remaining - take) as nat) {
                Err(k) => Err(k),
                Ok(ps) => Ok(seq![p] + ps),
            },
        }
    }
}

/// The pieces of a read of `len` bytes at `offset`; `UnexpectedEof` when the
/// range passes the end of the disk.
pub open spec fn spec_read_plan(st: ExfatRuntimeState, offset: u64, len: nat) -> Result<Seq<PieceView>, ErrorKind> {
    if offset + len > st.spec_layout().total_sectors * 512 {
        Err(ErrorKind::UnexpectedEof)
    } else {
        plan_from(st, offset as nat, len)
    }
}

/// `take` bytes of `d` from `start` on, zero past its end.
pub fn window_of(d: &[u8], start: usize, take: usize) -> (r: Vec<u8>)
    ensures
        r@ == window(d@, start as int, take as nat),
{
    let mut out: Vec<u8> = Vec::new();
    let mut i: usize = 0;
    while i < take
        invariant
            i <= take,
            out@ == window(d@, start as int, take as nat).take(i as int),
        decreases take - i,
    {
        let b: u8 = if start < d.len() && i < d.len() - start { d[start + i] } else { 0 };
        out.push(b);
        assert(out@ =~= window(d@, start as int, take as nat).take(i + 1));
        i = i + 1;
    }
    assert(window(d@, start as int, take as nat).take(take as int) =~= window(d@, start as int, take as nat));
    out
}

/// `take` bytes of the blocked placeholder from `file_offset + sector_offset`
/// on, zero past its end.
pub fn read_placeholder_slice(file_offset: u64, sector_offset: usize, take: usize) -> (r: Vec<u8>)
    ensures
        r@ == window(spec_placeholder_bytes(), file_offset + sector_offset, take as nat),
{
    let ph = blocked_placeholder_bytes();
    let start: u64 = match file_offset.checked_add(sector_offset as u64) {
        Some(s) => s,
        None => u64::MAX,
    };
    if start >= ph.len() as u64 {
        let r = window_of(ph.as_slice(), ph.len(), take);
        assert(r@ =~= window(spec_placeholder_bytes(), file_offset + sector_offset, take as nat));
        return r;
    }
    let r = window_of(ph.as_slice(), start as usize, take);
    r
}

impl ExfatRuntimeState {
    /// What `take` bytes of `sector` from `so` on read as.
    pub fn sector_read_piece(&self, sector: u64, so: usize, take: usize) -> (r: Result<ReadPiece, IoError>)
        requires
            self.wf(),
        ensures
            match sector_piece(*self, sector, so as int, take as nat) {
                Ok(p) => r matches Ok(x) && piece_view(x) == p,
                Err(k) => r matches Err(e) && e.kind == k,
            },
    {
        if let Some(d) = self.overlay_sector(sector) {
            return Ok(ReadPiece::Bytes(window_of(d, so, take)));
        }
        match self.sector_owner(sector) {
            SectorOwner::FileData { node_id, file_offset, valid_bytes } => {
                let avail: usize = if (valid_bytes as usize) >= so { valid_bytes as usize - so } else { 0 };
                let read_len: usize = if take <= avail { take } else { avail };
                if read_len == 0 {
                    return Ok(ReadPiece::Zeros(take));
                }
                match self.node(NodeId(node_id)) {
                    None => Err(io_error(ErrorKind::NotFound, "file data owner not found in VFS")),
                    Some(n) => match &n.file_view {
                        Some(VfsFileView::BlockedPlaceholder { .. }) => Ok(
                            ReadPiece::Bytes(read_placeholder_slice(file_offset, so, take)),
                        ),
                        _ => Ok(
                            ReadPiece::File {
                                real_path: n.real_path.clone(),
                                offset: file_offset.wrapping_add(so as u64),
                                read_len,
                                take,
                            },
                        ),
                    },
                }
            },
            SectorOwner::AllocatedZero { node_id, file_offset } => match self.node(NodeId(node_id)) {
                None => Err(io_error(ErrorKind::NotFound, "file data owner not found in VFS")),
                Some(n) => match &n.file_view {
                    Some(VfsFileView::BlockedPlaceholder { .. }) => Ok(ReadPiece::Zeros(take)),
                    _ => Ok(
                        ReadPiece::File {
                            real_path: n.real_path.clone(),
                            offset: file_offset.wrapping_add(so as u64),
                            read_len: take,
                            take,
                        },
                    ),
                },
            },
            SectorOwner::OutOfRange => Err(io_error(ErrorKind::UnexpectedEof, "read out of virtual exFAT range")),
            _ => match self.volume_sector(sector) {
                SectorContent::Metadata(d) => Ok(ReadPiece::Bytes(window_of(d.as_slice(), so, take))),
                SectorContent::FileData { real_path, offset, valid_bytes, .. } => {
                    let avail: usize = if (valid_bytes as usize) >= so { valid_bytes as usize - so } else { 0 };
                    let read_len: usize = if take <= avail { take } else { avail };
                    Ok(ReadPiece::File { real_path, offset: offset.wrapping_add(so as u64), read_len, take })
                },
                SectorContent::Zero => Ok(ReadPiece::Zeros(take)),
            },
        }
    }

    /// The pieces a read of `len` bytes at `offset` returns, in order; the
    /// caller reads the real-file pieces. `UnexpectedEof` when the range passes
    /// the end of the disk.
    pub fn read_plan(&self, offset: u64, len: usize) -> (r: Result<Vec<ReadPiece>, IoError>)
        requires
            self.wf(),
        ensures
            match spec_read_plan(*self, offset, len as nat) {
                Ok(ps) => r matches Ok(v) && pieces_view(v@) == ps,
                Err(k) => r matches Err(e) && e.kind == k,
            },
    {
        let end_disk = self.end_byte_exclusive();
        if len as u64 > u64::MAX - offset || offset + len as u64 > end_disk {
            return Err(io_error(ErrorKind::UnexpectedEof, "read range exceeds virtual exFAT disk"));
        }
        let mut out: Vec<ReadPiece> = Vec::new();
        let mut current: u64 = offset;
        let mut done: usize = 0;
        assert(pieces_view(out@) =~= Seq::<PieceView>::empty());
        while done < len
            invariant
                self.wf(),
                done <= len,
                current == offset + done,
                offset + len <= u64::MAX,
                spec_read_plan(*self, offset, len as nat) == plan_from(*self, offset as nat, len as nat),
                plan_from(*self, offset as nat, len as nat) == (match plan_from(*self, current as nat, (len - done) as nat) {
                    Ok(ps) => Ok(pieces_view(out@) + ps),
                    Err(k) => Err::<Seq<PieceView>, ErrorKind>(k),
                }),
            decreases len - done,
        {
            let sector = current / 512;
            let so: usize = (current % 512) as usize;
            let rest = len - done;
            let take: usize = if 512 - so <= rest { 512 - so } else { rest };
            let ghost prev = pieces_view(out@);
            match self.sector_read_piece(sector, so, take) {
                Err(e) => {
                    return Err(e);
                },
                Ok(p) => {
                    out.push(p);
                    assert(pieces_view(out@) =~= prev.push(piece_view(p)));
                    proof {
                        match plan_from(*self, (current + take) as nat, (len - done - take) as nat) {
                            Ok(ps) => {
                                assert(prev + (seq![piece_view(p)] + ps) =~= pieces_view(out@) + ps);
                            },
                            Err(_) => {},
                        }
                    }
                },
            }
            current = current + take as u64;
            done = done + take;
        }
        assert(pieces_view(out@) + Seq::<PieceView>::empty() =~= pieces_view(out@));
        Ok(out)
    }
}

} // verus!
