//! Runtime exFAT write transactions.
use vstd::prelude::*;
use vstd::std_specs::iter::IteratorSpec;
use crate::exfat::sector_owner::SectorOwner;
use crate::vfs::mutation::FsMutation;
use crate::strings::{chars_of, decimal, decimal_string, hex_fixed, hex_string, string_of};

verus! {

broadcast use vstd::std_specs::vec::group_vec_axioms;

/// One sector write recorded in a transaction, classified by the sector's owner.
#[derive(Debug, PartialEq, Eq)]
pub enum TransactionWrite {
    Fat { sector: u64, data: Vec<u8> },
    Bitmap { sector: u64, data: Vec<u8> },
    Directory { sector: u64, owner: SectorOwner, data: Vec<u8> },
    FileData { sector: u64, owner: SectorOwner, data: Vec<u8> },
    FreeCluster { sector: u64, owner: SectorOwner, data: Vec<u8> },
}

/// Why a transaction cannot be resolved yet.
#[derive(Debug, PartialEq, Eq)]
pub enum PendingReason {
    WaitingForDirectoryData { sector: u64 },
}

/// Why a transaction is invalid.
#[derive(Debug, PartialEq, Eq)]
pub enum TransactionError {
    UnknownDirectoryOwner { sector: u64 },
    MissingDirectoryImage { parent: String },
    DirectoryWriteBeforeStart { parent: String, sector: u64 },
    UnsupportedDirectoryRewrite { parent: String },
    BlockedPlaceholderRewrite { virtual_path: String },
    UnresolvedClusterChain { first_cluster: u32, data_length: u64 },
}

/// A committed metadata sector to overlay on the virtual volume.
#[derive(Debug, PartialEq, Eq)]
pub enum CommittedMetadataUpdate {
    Sector { sector: u64, data: Vec<u8> },
}

/// The mutations a closed transaction stands for.
#[derive(Debug)]
pub struct ResolvedTransaction {
    pub mutations: Vec<FsMutation>,
}

/// Outcome of resolving a transaction.
#[derive(Debug)]
pub enum ResolveStatus {
    Complete(ResolvedTransaction),
    Incomplete(PendingReason),
    Invalid(TransactionError),
}

/// The sector a write targets.
pub open spec fn write_sector(w: TransactionWrite) -> u64 {
    match w {
        TransactionWrite::Fat { sector, .. } => sector,
        TransactionWrite::Bitmap { sector, .. } => sector,
        TransactionWrite::Directory { sector, .. } => sector,
        TransactionWrite::FileData { sector, .. } => sector,
        TransactionWrite::FreeCluster { sector, .. } => sector,
    }
}

/// Whether a write carries file data (kept across transactions until its file is known).
pub open spec fn is_deferred_data(w: TransactionWrite) -> bool {
    w is FileData || w is FreeCluster
}

/// The writes of `s` that carry file data, in order.
pub open spec fn deferred_writes(s: Seq<TransactionWrite>) -> Seq<TransactionWrite>
    decreases s.len(),
{
    if s.len() == 0 {
        seq![]
    } else if is_deferred_data(s.last()) {
        deferred_writes(s.drop_last()).push(s.last())
    } else {
        deferred_writes(s.drop_last())
    }
}

impl TransactionWrite {
    /// The sector this write targets.
    pub fn sector(&self) -> (s: u64)
        ensures
            s == write_sector(*self),
    {
        match self {
            TransactionWrite::Fat { sector, .. } => *sector,
            TransactionWrite::Bitmap { sector, .. } => *sector,
            TransactionWrite::Directory { sector, .. } => *sector,
            TransactionWrite::FileData { sector, .. } => *sector,
            TransactionWrite::FreeCluster { sector, .. } => *sector,
        }
    }
}

/// A character as it stands inside a quoted `Debug` string: quotes,
/// backslashes and the ASCII control characters escaped, the others kept.
pub open spec fn escape_debug_char(c: char) -> Seq<char> {
    if c == '"' {
        seq!['\\', '"']
    } else if c == '\\' {
        seq!['\\', '\\']
    } else if c == '\n' {
        seq!['\\', 'n']
    } else if c == '\r' {
        seq!['\\', 'r']
    } else if c == '\t' {
        seq!['\\', 't']
    } else if c == '\0' {
        seq!['\\', '0']
    } else if (c as u32) < 0x20 || (c as u32) == 0x7f {
        seq!['\\', 'u', '{'] + hex_fixed(c as u32 as nat, if (c as u32) < 16 { 1nat } else { 2nat }) + seq!['}']
    } else {
        seq![c]
    }
}

/// The characters of `s`, each escaped.
pub open spec fn escape_debug(s: Seq<char>) -> Seq<char>
    decreases s.len(),
{
    if s.len() == 0 {
        seq![]
    } else {
        escape_debug(s.drop_last()) + escape_debug_char(s.last())
    }
}

/// `s` quoted as its `Debug` text shows it.
pub open spec fn debug_str(s: Seq<char>) -> Seq<char> {
    seq!['"'] + escape_debug(s) + seq!['"']
}

/// The `Debug` text of a transaction error: the variant's name and its
/// fields in braces.
pub open spec fn error_text(e: TransactionError) -> Seq<char> {
    match e {
        TransactionError::UnknownDirectoryOwner { sector } => "UnknownDirectoryOwner { sector: "@ + decimal(sector as nat)
            + " }"@,
        TransactionError::MissingDirectoryImage { parent } => "MissingDirectoryImage { parent: "@ + debug_str(parent@) + " }"@,
        TransactionError::DirectoryWriteBeforeStart { parent, sector } => "DirectoryWriteBeforeStart { parent: "@ + debug_str(
            parent@,
        ) + ", sector: "@ + decimal(sector as nat) + " }"@,
        TransactionError::UnsupportedDirectoryRewrite { parent } => "UnsupportedDirectoryRewrite { parent: "@ + debug_str(parent@)
            + " }"@,
        TransactionError::BlockedPlaceholderRewrite { virtual_path } => "BlockedPlaceholderRewrite { virtual_path: "@ + debug_str(
            virtual_path@,
        ) + " }"@,
        TransactionError::UnresolvedClusterChain { first_cluster, data_length } => "UnresolvedClusterChain { first_cluster: "@
            + decimal(first_cluster as nat) + ", data_length: "@ + decimal(data_length as nat) + " }"@,
    }
}

/// Appends `s` to `out`.
fn push_all(out: &mut Vec<char>, s: &[char])
    ensures
        final(out)@ == old(out)@ + s@,
{
    let mut i: usize = 0;
    while i < s.len()
        invariant
            i <= s@.len(),
            out@ == old(out)@ + s@.take(i as int),
        decreases s@.len() - i,
    {
        out.push(s[i]);
        i = i + 1;
        assert(out@ =~= old(out)@ + s@.take(i as int));
    }
    assert(s@.take(s@.len() as int) =~= s@);
}

/// Appends the text of `s` to `out`.
fn push_str(out: &mut Vec<char>, s: &str)
    ensures
        final(out)@ == old(out)@ + s@,
{
    let v = chars_of(s);
    push_all(out, v.as_slice());
}

/// Appends `s`, quoted and escaped as its `Debug` text shows it, to `out`.
fn push_debug_str(out: &mut Vec<char>, s: &str)
    ensures
        final(out)@ == old(out)@ + debug_str(s@),
{
    let cs = chars_of(s);
    out.push('"');
    let ghost start = out@;
    let mut i: usize = 0;
    while i < cs.len()
        invariant
            i <= cs@.len(),
            cs@ == s@,
            out@ == start + escape_debug(cs@.take(i as int)),
        decreases cs@.len() - i,
    {
        let c = cs[i];
        let ghost before = out@;
        if c == '"' {
            out.push('\\');
            out.push('"');
        } else if c == '\\' {
            out.push('\\');
            out.push('\\');
        } else if c == '\n' {
            out.push('\\');
            out.push('n');
        } else if c == '\r' {
            out.push('\\');
            out.push('r');
        } else if c == '\t' {
            out.push('\\');
            out.push('t');
        } else if c == '\0' {
            out.push('\\');
            out.push('0');
        } else if (c as u32) < 0x20 || (c as u32) == 0x7f {
            out.push('\\');
            out.push('u');
            out.push('{');
            let w: u64 = if (c as u32) < 16 { 1 } else { 2 };
            let h = hex_string(c as u32 as u64, w);
            push_str(out, h.as_str());
            out.push('}');
        } else {
            out.push(c);
        }
        assert(out@ =~= before + escape_debug_char(c));
        assert(cs@.take(i + 1).drop_last() =~= cs@.take(i as int));
        i = i + 1;
    }
    assert(cs@.take(cs@.len() as int) =~= cs@);
    out.push('"');
    assert(out@ =~= old(out)@ + debug_str(s@));
}

impl TransactionError {
    /// The `Debug` text of the error.
    pub fn debug_text(&self) -> (r: String)
        ensures
            r@ == error_text(*self),
    {
        let mut out: Vec<char> = Vec::new();
        match self {
            TransactionError::UnknownDirectoryOwner { sector } => {
                push_str(&mut out, "UnknownDirectoryOwner { sector: ");
                push_str(&mut out, decimal_string(*sector).as_str());
                push_str(&mut out, " }");
            },
            TransactionError::MissingDirectoryImage { parent } => {
                push_str(&mut out, "MissingDirectoryImage { parent: ");
                push_debug_str(&mut out, parent.as_str());
                push_str(&mut out, " }");
            },
            TransactionError::DirectoryWriteBeforeStart { parent, sector } => {
                push_str(&mut out, "DirectoryWriteBeforeStart { parent: ");
                push_debug_str(&mut out, parent.as_str());
                push_str(&mut out, ", sector: ");
                push_str(&mut out, decimal_string(*sector).as_str());
                push_str(&mut out, " }");
            },
            TransactionError::UnsupportedDirectoryRewrite { parent } => {
                push_str(&mut out, "UnsupportedDirectoryRewrite { parent: ");
                push_debug_str(&mut out, parent.as_str());
                push_str(&mut out, " }");
            },
            TransactionError::BlockedPlaceholderRewrite { virtual_path } => {
                push_str(&mut out, "BlockedPlaceholderRewrite { virtual_path: ");
                push_debug_str(&mut out, virtual_path.as_str());
                push_str(&mut out, " }");
            },
            TransactionError::UnresolvedClusterChain { first_cluster, data_length } => {
                push_str(&mut out, "UnresolvedClusterChain { first_cluster: ");
                push_str(&mut out, decimal_string(*first_cluster as u64).as_str());
                push_str(&mut out, ", data_length: ");
                push_str(&mut out, decimal_string(*data_length).as_str());
                push_str(&mut out, " }");
            },
        }
        let r = string_of(out.as_slice());
        r
    }

    /// Whether the error is a policy rejection after which the volume state can be
    /// restored and the write absorbed.
    pub fn is_recoverable_policy_rejection(&self) -> (r: bool)
        ensures
            r == (self is BlockedPlaceholderRewrite),
    {
        match self {
            TransactionError::BlockedPlaceholderRewrite { .. } => true,
            _ => false,
        }
    }
}

/// An open write transaction: an id and the writes recorded so far.
#[derive(Debug)]
pub struct PendingTransaction {
    id: u64,
    writes: Vec<TransactionWrite>,
}

impl PendingTransaction {
    /// The transaction id.
    pub closed spec fn spec_id(&self) -> u64 {
        self.id
    }

    /// The recorded writes, in order.
    pub closed spec fn view(&self) -> Seq<TransactionWrite> {
        self.writes@
    }

    /// An empty transaction with id `id`.
    pub fn new(id: u64) -> (t: Self)
        ensures
            t.spec_id() == id,
            t@ == Seq::<TransactionWrite>::empty(),
    {
        Self { id, writes: Vec::new() }
    }

    /// The transaction id.
    pub fn id(&self) -> (r: u64)
        ensures
            r == self.spec_id(),
    {
        self.id
    }

    /// The recorded writes.
    pub fn writes(&self) -> (r: &[TransactionWrite])
        ensures
            r@ == self@,
    {
        self.writes.as_slice()
    }

    /// Records a write.
    pub fn record_write(&mut self, write: TransactionWrite)
        ensures
            final(self).spec_id() == old(self).spec_id(),
            final(self)@ == old(self)@.push(write),
    {
        self.writes.push(write);
    }

    /// Drops every write except those that carry file data.
    pub fn retain_deferred_data_writes(&mut self)
        ensures
            final(self).spec_id() == old(self).spec_id(),
            final(self)@ == deferred_writes(old(self)@),
    {
        let mut old_writes: Vec<TransactionWrite> = Vec::new();
        std::mem::swap(&mut old_writes, &mut self.writes);
        let ghost all = old_writes@;
        let ghost id = self.id;
        assert(self.writes@ == deferred_writes(all.take(0)));
        for w in it: old_writes.into_iter()
            invariant
                it.seq() == all,
                self.id == id,
                id == old(self).spec_id(),
                all == old(self)@,
                self.writes@ == deferred_writes(all.take(it.index())),
        {
            assert(all.take(it.index() + 1).drop_last() =~= all.take(it.index()));
            let keep = match &w {
                TransactionWrite::FileData { .. } | TransactionWrite::FreeCluster { .. } => true,
                _ => false,
            };
            if keep {
                self.writes.push(w);
            }
        }
        assert(all.take(all.len() as int) =~= all);
    }

    /// Whether no write is recorded.
    pub fn is_empty(&self) -> (r: bool)
        ensures
            r == (self@.len() == 0),
    {
        self.writes.len() == 0
    }
}

} // verus!
