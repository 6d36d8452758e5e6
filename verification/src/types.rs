//! Core data model: the node tree produced by a scan, the metadata captured
//! for every entry, and the snapshot types through which a filesystem tree is
//! handed to the scanner as plain values.

use vstd::prelude::*;

verus! {

broadcast use
    vstd::std_specs::vec::axiom_vec_decreases_to_view,
    vstd::seq::axiom_seq_index_decreases,
    vstd::seq::axiom_seq_subrange_decreases;

/// Kind of a filesystem entry as decided by the classifier.
#[derive(Debug, Clone, Copy, PartialEq, Eq, Structural)]
pub enum FileType {
    /// Text file with readable content
    TextFile,
    /// Binary file (non-text)
    BinaryFile,
    /// Symbolic link to another file
    Symlink,
    /// Directory containing other entries
    Directory,
    /// Other file types
    Other,
}

/// Metadata about a filesystem entry, captured once at scan time.
#[derive(Debug)]
pub struct Metadata {
    /// Size in bytes
    pub size: u64,
    /// Last modification time, seconds since the Unix epoch
    pub modified: u64,
    /// File permissions in octal format (empty when the platform has none)
    pub permissions: String,
}

impl Clone for Metadata {
    /// A copy with the same mathematical value.
    fn clone(&self) -> (r: Self)
        ensures
            r@ == self@,
    {
        Metadata {
            size: self.size,
            modified: self.modified,
            permissions: self.permissions.clone(),
        }
    }
}

/// Mathematical value of a [`Metadata`].
pub struct MetadataView {
    pub size: u64,
    pub modified: u64,
    pub permissions: Seq<char>,
}

impl View for Metadata {
    type V = MetadataView;

    open spec fn view(&self) -> MetadataView {
        MetadataView { size: self.size, modified: self.modified, permissions: self.permissions@ }
    }
}

/// Represents a directory in the file system.
#[derive(Debug)]
pub struct DirectoryNode {
    /// Directory name
    pub name: String,
    /// Slash-separated path relative to the scan root
    pub path: String,
    /// Directory metadata
    pub metadata: Metadata,
    /// Directory contents: subdirectories first, then files
    pub contents: Vec<Node>,
}

/// Represents a text file.
#[derive(Debug, Clone)]
pub struct FileNode {
    /// File name
    pub name: String,
    /// Slash-separated path relative to the scan root
    pub path: String,
    /// File metadata
    pub metadata: Metadata,
    /// File content, or a placeholder message when the content was not read
    pub content: Option<String>,
}

/// Represents a binary file.
#[derive(Debug, Clone)]
pub struct BinaryNode {
    /// File name
    pub name: String,
    /// Slash-separated path relative to the scan root
    pub path: String,
    /// File metadata
    pub metadata: Metadata,
}

/// Represents a symbolic link.
#[derive(Debug, Clone)]
pub struct SymlinkNode {
    /// Link name
    pub name: String,
    /// Slash-separated path relative to the scan root
    pub path: String,
    /// Link metadata
    pub metadata: Metadata,
    /// Target of the symlink, as a literal unresolved string
    pub target: String,
}

/// A generic filesystem node.
#[derive(Debug)]
pub enum Node {
    /// Directory node
    Directory(DirectoryNode),
    /// Text file node
    File(FileNode),
    /// Binary file node
    Binary(BinaryNode),
    /// Symbolic link node
    Symlink(SymlinkNode),
}

/// Mathematical value of a [`Node`]: the same tree with every string replaced
/// by its character sequence.
pub enum NodeView {
    Directory {
        name: Seq<char>,
        path: Seq<char>,
        metadata: MetadataView,
        contents: Seq<NodeView>,
    },
    File { name: Seq<char>, path: Seq<char>, metadata: MetadataView, content: Option<Seq<char>> },
    Binary { name: Seq<char>, path: Seq<char>, metadata: MetadataView },
    Symlink { name: Seq<char>, path: Seq<char>, metadata: MetadataView, target: Seq<char> },
}

/// Mathematical value of a forest of nodes, element by element.
pub open spec fn nodes_view(v: Seq<Node>) -> Seq<NodeView>
    decreases v,
{
    if v.len() == 0 {
        Seq::empty()
    } else {
        seq![v[0]@] + nodes_view(v.drop_first())
    }
}

impl View for DirectoryNode {
    type V = NodeView;

    open spec fn view(&self) -> NodeView
        decreases self,
    {
        NodeView::Directory {
            name: self.name@,
            path: self.path@,
            metadata: self.metadata@,
            contents: nodes_view(self.contents@),
        }
    }
}

impl View for FileNode {
    type V = NodeView;

    open spec fn view(&self) -> NodeView {
        NodeView::File {
            name: self.name@,
            path: self.path@,
            metadata: self.metadata@,
            content: match self.content {
                Some(c) => Some(c@),
                None => None,
            },
        }
    }
}

impl View for BinaryNode {
    type V = NodeView;

    open spec fn view(&self) -> NodeView {
        NodeView::Binary { name: self.name@, path: self.path@, metadata: self.metadata@ }
    }
}

impl View for SymlinkNode {
    type V = NodeView;

    open spec fn view(&self) -> NodeView {
        NodeView::Symlink {
            name: self.name@,
            path: self.path@,
            metadata: self.metadata@,
            target: self.target@,
        }
    }
}

impl View for Node {
    type V = NodeView;

    open spec fn view(&self) -> NodeView
        decreases self,
    {
        match self {
            Node::Directory(d) => NodeView::Directory {
                name: d.name@,
                path: d.path@,
                metadata: d.metadata@,
                contents: nodes_view(d.contents@),
            },
            Node::File(f) => f@,
            Node::Binary(b) => b@,
            Node::Symlink(s) => s@,
        }
    }
}

/// Number of file, binary and symlink leaves in a node tree; directories are
/// structural and do not count.
pub open spec fn leaf_node_count(n: NodeView) -> nat
    decreases n,
{
    match n {
        NodeView::Directory { contents, .. } => leaf_node_count_seq(contents),
        NodeView::File { .. } => 1,
        NodeView::Binary { .. } => 1,
        NodeView::Symlink { .. } => 1,
    }
}

/// Number of file, binary and symlink leaves in a forest of node trees.
pub open spec fn leaf_node_count_seq(s: Seq<NodeView>) -> nat
    decreases s,
{
    if s.len() == 0 {
        0
    } else {
        leaf_node_count(s[0]) + leaf_node_count_seq(s.drop_first())
    }
}

/// Appending a node to a forest appends its view to the forest's view.
pub proof fn lemma_nodes_view_push(s: Seq<Node>, n: Node)
    ensures
        nodes_view(s.push(n)) =~= nodes_view(s) + seq![n@],
    decreases s,
{
    if s.len() == 0 {
        assert(s.push(n).drop_first() =~= Seq::<Node>::empty());
        assert(s.push(n)[0] == n);
        assert(s.push(n).len() == 1);
        assert(nodes_view(s.push(n)) == seq![n@] + nodes_view(s.push(n).drop_first()));
        assert(nodes_view(s.push(n).drop_first()) =~= Seq::<NodeView>::empty());
        assert(nodes_view(s) =~= Seq::<NodeView>::empty());
    } else {
        assert(s.push(n).drop_first() =~= s.drop_first().push(n));
        lemma_nodes_view_push(s.drop_first(), n);
        assert(s.push(n)[0] == s[0]);
        assert(nodes_view(s.push(n)) == seq![s[0]@] + nodes_view(s.drop_first().push(n)));
        assert(nodes_view(s) == seq![s[0]@] + nodes_view(s.drop_first()));
    }
}

/// Leaf counting distributes over concatenation of forests.
pub proof fn lemma_leaf_node_count_seq_concat(a: Seq<NodeView>, b: Seq<NodeView>)
    ensures
        leaf_node_count_seq(a + b) == leaf_node_count_seq(a) + leaf_node_count_seq(b),
    decreases a,
{
    if a.len() == 0 {
        assert(a + b =~= b);
    } else {
        assert((a + b)[0] == a[0]);
        assert((a + b).drop_first() =~= a.drop_first() + b);
        lemma_leaf_node_count_seq_concat(a.drop_first(), b);
    }
}

} // verus!
