//! The tree of the files and directories of a project.

use vstd::prelude::*;

verus! {

/// What a view of a file tree reports.
#[derive(PartialEq)]
pub enum TreeEvent {
    /// The file with this path was chosen.
    Clicked(String),
    /// Nothing happened.
    Nothing,
}

/// What an entry of a file tree is.
#[derive(Debug, Clone, Copy, PartialEq, Eq, Structural)]
pub enum TreeType {
    File,
    Directory,
}

/// An entry of a file tree, with the entries below it.
#[derive(Default, Debug)]
pub struct Tree {
    /// The name shown for the entry.
    pub label: String,
    /// The path of the entry.
    pub full_path: String,
    /// The path of the file chosen last in a view of the entry.
    pub select_path: String,
    /// The entries of a directory, in the order in which they were read.
    pub children: Vec<Tree>,
    /// Whether the entry is a file or a directory.
    pub tree_type: Option<TreeType>,
    /// Whether the entry itself is marked as clicked.
    pub clicked: bool,
}

impl Tree {
    /// The entry or an entry below it is marked as clicked.
    pub open spec fn any_clicked(self) -> bool
        decreases self,
    {
        self.clicked || exists|i: int|
            0 <= i < self.children@.len() && (#[trigger] self.children@[i]).any_clicked()
    }

    /// An entry without entries below it, not marked, with nothing chosen.
    pub fn new(name: &str, full_path: &str, tree_type: TreeType) -> (tree: Tree)
        ensures
            tree.label@ == name@,
            tree.full_path@ == full_path@,
            tree.select_path@ == Seq::<char>::empty(),
            tree.children@ == Seq::<Tree>::empty(),
            tree.tree_type == Some(tree_type),
            !tree.clicked,
    {
        Tree {
            label: name.to_owned(),
            full_path: full_path.to_owned(),
            children: Vec::new(),
            tree_type: Some(tree_type),
            clicked: false,
            select_path: String::new(),
        }
    }

    /// Whether the entry or an entry below it is marked as clicked.
    pub fn clicked(&self) -> (hit: bool)
        ensures
            hit == self.any_clicked(),
        decreases self,
    {
        if self.clicked {
            return true;
        }
        let mut i: usize = 0;
        while i < self.children.len()
            invariant
                i <= self.children.len(),
                forall|j: int| 0 <= j < i ==> !(#[trigger] self.children@[j]).any_clicked(),
            decreases self.children.len() - i,
        {
            if self.children[i].clicked() {
                return true;
            }
            i = i + 1;
        }
        false
    }
}

impl Clone for TreeEvent {
    fn clone(&self) -> (copy: TreeEvent)
        ensures
            copy == *self,
    {
        match self {
            TreeEvent::Clicked(path) => TreeEvent::Clicked(path.clone()),
            TreeEvent::Nothing => TreeEvent::Nothing,
        }
    }
}

} // verus!
