//! Nodes of the controlled virtual file system.
use vstd::prelude::*;
use crate::types::ExecFileType;

verus! {

/// Identifier of a VFS node.
#[derive(Debug, Clone, Copy, PartialEq, Eq, Hash, PartialOrd, Ord, Structural)]
pub struct NodeId(pub u64);

/// Whether a node is a file or a directory.
#[derive(Debug, Clone, Copy, PartialEq, Eq, Structural)]
pub enum VfsNodeKind {
    File,
    Directory,
}

/// How a file's content is presented to the host.
#[derive(Debug)]
pub enum VfsFileView {
    /// The real file's content.
    RealFile,
    /// A fixed placeholder text in place of a file that policy blocks.
    BlockedPlaceholder { reason: String, real_size: u64, placeholder_size: u64 },
}

/// A node of the virtual file system.
#[derive(Debug)]
pub struct VfsNode {
    pub id: NodeId,
    pub parent: Option<NodeId>,
    pub name: String,
    pub virtual_path: String,
    pub real_path: String,
    pub kind: VfsNodeKind,
    pub size: u64,
    pub file_view: Option<VfsFileView>,
    pub first_cluster: Option<u32>,
    pub is_virus: bool,
    pub exec_type: Option<ExecFileType>,
    pub extension: String,
    pub is_autorun_target: bool,
    pub is_autorun_inf: bool,
    pub is_root_shell_script: bool,
    pub children: Vec<NodeId>,
}

impl VfsNode {
    /// Whether the node is a directory.
    pub fn is_dir(&self) -> (r: bool)
        ensures
            r == (self.kind == VfsNodeKind::Directory),
    {
        self.kind == VfsNodeKind::Directory
    }

    /// Whether the node shows the blocked placeholder in place of its content.
    pub open spec fn spec_is_blocked(&self) -> bool {
        self.file_view matches Some(VfsFileView::BlockedPlaceholder { .. })
    }

    /// Whether the node shows the blocked placeholder in place of its content.
    pub fn is_blocked_placeholder(&self) -> (r: bool)
        ensures
            r == self.spec_is_blocked(),
    {
        match &self.file_view {
            Some(VfsFileView::BlockedPlaceholder { .. }) => true,
            _ => false,
        }
    }

    /// The policy reason for a blocked placeholder.
    pub fn blocked_reason(&self) -> (r: Option<&str>)
        ensures
            match self.file_view {
                Some(VfsFileView::BlockedPlaceholder { reason, .. }) => r matches Some(s) && s@ == reason@,
                _ => r is None,
            },
    {
        match &self.file_view {
            Some(VfsFileView::BlockedPlaceholder { reason, .. }) => Some(reason.as_str()),
            _ => None,
        }
    }
}

/// Mathematical form of a file view.
pub enum FileViewSpec {
    RealFile,
    Blocked { reason: Seq<char>, real_size: u64, placeholder_size: u64 },
}

/// Mathematical form of a node.
pub struct NodeView {
    pub id: NodeId,
    pub parent: Option<NodeId>,
    pub name: Seq<char>,
    pub virtual_path: Seq<char>,
    pub real_path: Seq<char>,
    pub kind: VfsNodeKind,
    pub size: u64,
    pub file_view: Option<FileViewSpec>,
    pub first_cluster: Option<u32>,
    pub is_virus: bool,
    pub exec_type: Option<ExecFileType>,
    pub extension: Seq<char>,
    pub is_autorun_target: bool,
    pub is_autorun_inf: bool,
    pub is_root_shell_script: bool,
    pub children: Seq<NodeId>,
}

/// The view of an optional file view.
pub open spec fn file_view_spec(v: Option<VfsFileView>) -> Option<FileViewSpec> {
    match v {
        None => None,
        Some(VfsFileView::RealFile) => Some(FileViewSpec::RealFile),
        Some(VfsFileView::BlockedPlaceholder { reason, real_size, placeholder_size }) => Some(
            FileViewSpec::Blocked { reason: reason@, real_size, placeholder_size },
        ),
    }
}

impl VfsNode {
    /// The mathematical form of the node.
    pub open spec fn view(&self) -> NodeView {
        NodeView {
            id: self.id,
            parent: self.parent,
            name: self.name@,
            virtual_path: self.virtual_path@,
            real_path: self.real_path@,
            kind: self.kind,
            size: self.size,
            file_view: file_view_spec(self.file_view),
            first_cluster: self.first_cluster,
            is_virus: self.is_virus,
            exec_type: self.exec_type,
            extension: self.extension@,
            is_autorun_target: self.is_autorun_target,
            is_autorun_inf: self.is_autorun_inf,
            is_root_shell_script: self.is_root_shell_script,
            children: self.children@,
        }
    }
}

/// The views of a list of nodes.
pub open spec fn nodes_view(s: Seq<VfsNode>) -> Seq<NodeView> {
    s.map_values(|n: VfsNode| n@)
}

} // verus!
