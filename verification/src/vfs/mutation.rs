//! File system mutations derived from exFAT writes.
use vstd::prelude::*;

verus! {

/// Kind of a node a mutation concerns.
#[derive(Debug, Clone, Copy, PartialEq, Eq, Structural)]
pub enum NodeKind {
    File,
    Directory,
}

/// A cluster chain: its first cluster and all clusters in order.
#[derive(Debug, PartialEq, Eq)]
pub struct ClusterChain {
    pub first_cluster: u32,
    pub clusters: Vec<u32>,
}

/// Bytes to write into a file at an offset.
#[derive(Debug, PartialEq, Eq)]
pub struct FileDataPatch {
    pub virtual_path: String,
    pub offset: u64,
    pub data: Vec<u8>,
}

/// A change of the controlled file system.
#[derive(Debug, PartialEq, Eq)]
pub enum FsMutation {
    CreateFile {
        parent: String,
        name: String,
        size: u64,
        valid_data_len: u64,
        chain: Option<ClusterChain>,
        data_patches: Vec<FileDataPatch>,
    },
    CreateDir { parent: String, name: String, chain: Option<ClusterChain> },
    WriteFile { virtual_path: String, offset: u64, data: Vec<u8> },
    Truncate { virtual_path: String, len: u64 },
    Rename { from: String, to: String, kind: NodeKind },
    Delete { virtual_path: String, kind: NodeKind },
    RewriteFile {
        virtual_path: String,
        size: u64,
        valid_data_len: u64,
        chain: Option<ClusterChain>,
        data_patches: Vec<FileDataPatch>,
    },
}

impl ClusterChain {
    /// A copy of the chain.
    pub fn duplicate(&self) -> (c: Self)
        ensures
            c.first_cluster == self.first_cluster,
            c.clusters@ == self.clusters@,
    {
        ClusterChain { first_cluster: self.first_cluster, clusters: self.clusters.clone() }
    }
}

/// Mathematical form of a cluster chain.
pub struct ChainView {
    pub first_cluster: u32,
    pub clusters: Seq<u32>,
}

/// Mathematical form of a data patch.
pub struct PatchView {
    pub virtual_path: Seq<char>,
    pub offset: u64,
    pub data: Seq<u8>,
}

/// Mathematical form of a mutation.
pub enum MutationView {
    CreateFile {
        parent: Seq<char>,
        name: Seq<char>,
        size: u64,
        valid_data_len: u64,
        chain: Option<ChainView>,
        data_patches: Seq<PatchView>,
    },
    CreateDir { parent: Seq<char>, name: Seq<char>, chain: Option<ChainView> },
    WriteFile { virtual_path: Seq<char>, offset: u64, data: Seq<u8> },
    Truncate { virtual_path: Seq<char>, len: u64 },
    Rename { from: Seq<char>, to: Seq<char>, kind: NodeKind },
    Delete { virtual_path: Seq<char>, kind: NodeKind },
    RewriteFile {
        virtual_path: Seq<char>,
        size: u64,
        valid_data_len: u64,
        chain: Option<ChainView>,
        data_patches: Seq<PatchView>,
    },
}

/// The view of an optional chain.
pub open spec fn chain_view(c: Option<ClusterChain>) -> Option<ChainView> {
    match c {
        Some(c) => Some(ChainView { first_cluster: c.first_cluster, clusters: c.clusters@ }),
        None => None,
    }
}

/// The views of a list of patches.
pub open spec fn patches_view(p: Seq<FileDataPatch>) -> Seq<PatchView> {
    p.map_values(|q: FileDataPatch| PatchView { virtual_path: q.virtual_path@, offset: q.offset, data: q.data@ })
}

impl FsMutation {
    /// The mathematical form of the mutation.
    pub open spec fn view(&self) -> MutationView {
        match self {
            FsMutation::CreateFile { parent, name, size, valid_data_len, chain, data_patches } =>
                MutationView::CreateFile {
                parent: parent@,
                name: name@,
                size: *size,
                valid_data_len: *valid_data_len,
                chain: chain_view(*chain),
                data_patches: patches_view(data_patches@),
            },
            FsMutation::CreateDir { parent, name, chain } => MutationView::CreateDir {
                parent: parent@,
                name: name@,
                chain: chain_view(*chain),
            },
            FsMutation::WriteFile { virtual_path, offset, data } => MutationView::WriteFile {
                virtual_path: virtual_path@,
                offset: *offset,
                data: data@,
            },
            FsMutation::Truncate { virtual_path, len } => MutationView::Truncate {
                virtual_path: virtual_path@,
                len: *len,
            },
            FsMutation::Rename { from, to, kind } => MutationView::Rename { from: from@, to: to@, kind: *kind },
            FsMutation::Delete { virtual_path, kind } => MutationView::Delete {
                virtual_path: virtual_path@,
                kind: *kind,
            },
            FsMutation::RewriteFile { virtual_path, size, valid_data_len, chain, data_patches } =>
                MutationView::RewriteFile {
                virtual_path: virtual_path@,
                size: *size,
                valid_data_len: *valid_data_len,
                chain: chain_view(*chain),
                data_patches: patches_view(data_patches@),
            },
        }
    }
}

/// The views of a list of mutations.
pub open spec fn mutations_view(m: Seq<FsMutation>) -> Seq<MutationView> {
    m.map_values(|x: FsMutation| x@)
}

} // verus!
