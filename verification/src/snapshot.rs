//! What the file system holds, as plain values.
//!
//! The library never touches the file system itself. Its caller looks at the
//! disk and describes what it found in the types of this module.

use vstd::prelude::*;

verus! {

/// What stands at one path of the file system.
#[derive(Debug, PartialEq, Eq)]
pub enum FsNode {
    /// A regular file.
    File,
    /// A directory, with what it holds.
    Directory(Vec<DirChild>),
    /// Anything that is neither a regular file nor a directory, such as a
    /// dangling symbolic link or a device node.
    Other,
}

/// One child of a directory.
#[derive(Debug, PartialEq, Eq)]
pub struct DirChild {
    /// The child's file name, one path component.
    pub name: Vec<u8>,
    /// What stands there.
    pub node: FsNode,
}

/// The mathematical value of an [`FsNode`].
pub enum NodeModel {
    /// A regular file.
    File,
    /// A directory, with its children in the order in which they were read.
    Directory(Seq<ChildModel>),
    /// Anything else.
    Other,
}

/// The mathematical value of a [`DirChild`].
pub struct ChildModel {
    /// The child's file name.
    pub name: Seq<u8>,
    /// What stands there.
    pub node: NodeModel,
}

impl FsNode {
    /// The tree that this node stands for.
    ///
    /// Only the indices inside a directory are ever asked for; the bound on
    /// `i` is what shows that the recursion ends.
    pub open spec fn model(self) -> NodeModel
        decreases self,
    {
        match self {
            FsNode::File => NodeModel::File,
            FsNode::Other => NodeModel::Other,
            FsNode::Directory(children) => NodeModel::Directory(
                Seq::new(
                    children@.len(),
                    |i: int|
                        if 0 <= i < children@.len() {
                            ChildModel {
                                name: children@[i].name@,
                                node: children@[i].node.model(),
                            }
                        } else {
                            arbitrary()
                        },
                ),
            ),
        }
    }
}

impl View for FsNode {
    type V = NodeModel;

    open spec fn view(&self) -> NodeModel {
        self.model()
    }
}

impl View for DirChild {
    type V = ChildModel;

    open spec fn view(&self) -> ChildModel {
        ChildModel { name: self.name@, node: self.node@ }
    }
}

/// The values of the children in `children`, one by one.
pub open spec fn children_view(children: Seq<DirChild>) -> Seq<ChildModel> {
    Seq::new(children.len(), |i: int| children[i]@)
}

/// The value of a directory is made of the values of its children.
pub proof fn lemma_directory_view(children: Vec<DirChild>)
    ensures
        FsNode::Directory(children)@ == NodeModel::Directory(children_view(children@)),
{
    assert(FsNode::Directory(children)@->Directory_0 =~= children_view(children@));
}

/// A copy of `node` and of everything below it.
fn copy_node(node: &FsNode) -> (copy: FsNode)
    ensures
        copy@ == node@,
    decreases node,
{
    match node {
        FsNode::File => FsNode::File,
        FsNode::Other => FsNode::Other,
        FsNode::Directory(children) => {
            let mut copies: Vec<DirChild> = Vec::new();
            let mut i: usize = 0;
            while i < children.len()
                invariant
                    *node == FsNode::Directory(*children),
                    i <= children.len(),
                    copies@.len() == i,
                    forall|k: int| 0 <= k < i ==> (#[trigger] copies@[k])@ == children@[k]@,
                decreases children.len() - i,
            {
                let child = &children[i];
                assert(node->Directory_0 == *children);
                copies.push(DirChild { name: child.name.clone(), node: copy_node(&child.node) });
                i += 1;
            }
            proof {
                lemma_directory_view(copies);
                lemma_directory_view(*children);
                assert(children_view(copies@) =~= children_view(children@));
            }
            FsNode::Directory(copies)
        },
    }
}

impl Clone for FsNode {
    fn clone(&self) -> (copy: Self)
        ensures
            copy@ == self@,
    {
        copy_node(self)
    }
}

impl Clone for DirChild {
    fn clone(&self) -> (copy: Self)
        ensures
            copy@ == self@,
    {
        DirChild { name: self.name.clone(), node: copy_node(&self.node) }
    }
}

/// What stands in the place of a key manifest in one directory.
#[derive(Debug, PartialEq, Eq)]
pub enum ManifestProbe {
    /// Nothing stands there.
    Absent,
    /// A regular file stands there, with these bytes in it.
    Manifest(Vec<u8>),
    /// Something stands there that is not a regular file.
    NotAFile,
}

/// The mathematical value of a [`ManifestProbe`].
pub enum ProbeModel {
    /// Nothing stands there.
    Absent,
    /// A regular file with these bytes in it.
    Manifest(Seq<u8>),
    /// Something that is not a regular file.
    NotAFile,
}

impl View for ManifestProbe {
    type V = ProbeModel;

    open spec fn view(&self) -> ProbeModel {
        match self {
            ManifestProbe::Absent => ProbeModel::Absent,
            ManifestProbe::Manifest(content) => ProbeModel::Manifest(content@),
            ManifestProbe::NotAFile => ProbeModel::NotAFile,
        }
    }
}

/// The values of the probes in `probes`, one by one.
pub open spec fn probes_view(probes: Seq<ManifestProbe>) -> Seq<ProbeModel> {
    Seq::new(probes.len(), |i: int| probes[i]@)
}

/// The value of what was found at a path, where nothing may stand.
pub open spec fn found_view(found: Option<FsNode>) -> Option<NodeModel> {
    match found {
        Some(node) => Some(node@),
        None => None,
    }
}

} // verus!
