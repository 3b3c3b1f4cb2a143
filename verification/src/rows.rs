//! The read-only traversal handed to a renderer: one row per visible node,
//! with chains of single-child directories compressed into one row. The
//! compression never mutates the tree; each row still carries the
//! uncompressed per-segment address for toggle requests.

use vstd::prelude::*;

use crate::node::{clone_string_vec, FileTreeNode, NodeModel};
use crate::scan::{FileModel, ScanChange};
use crate::tree::{FileTree, TreeModel};

verus! {

/// One displayed row.
#[derive(Debug, PartialEq, Eq)]
pub struct TreeRow {
    /// The compressed label for this row.
    pub label: String,
    /// The uncompressed segment address of the node this row stands for.
    pub keys: Vec<String>,
    pub depth: usize,
    pub expanded: bool,
    pub is_leaf: bool,
    pub ignored: bool,
    pub successful: bool,
    pub duplicated: bool,
    pub change: ScanChange,
    /// The alternative rendering of a redirected leaf, for the redirected
    /// badge: the original path when restoring, the redirection target when
    /// backing up.
    pub redirected: Option<String>,
    /// Whether the row carries an ignore checkbox: the node has a path.
    pub has_ignore_toggle: bool,
}

/// The mathematical counterpart of a row.
pub struct RowModel {
    pub label: Seq<char>,
    pub keys: Seq<Seq<char>>,
    pub depth: usize,
    pub expanded: bool,
    pub is_leaf: bool,
    pub ignored: bool,
    pub successful: bool,
    pub duplicated: bool,
    pub change: ScanChange,
    pub redirected: Option<Seq<char>>,
    pub has_ignore_toggle: bool,
}

pub open spec fn row_model(r: TreeRow) -> RowModel {
    RowModel {
        label: r.label@,
        keys: crate::node::seq_views(r.keys@),
        depth: r.depth,
        expanded: r.expanded,
        is_leaf: r.is_leaf,
        ignored: r.ignored,
        successful: r.successful,
        duplicated: r.duplicated,
        change: r.change,
        redirected: match r.redirected {
            Some(p) => Some(p@),
            None => None,
        },
        has_ignore_toggle: r.has_ignore_toggle,
    }
}

/// The alternative rendering of a leaf's file entry for the given
/// direction: present exactly when the entry was redirected.
pub open spec fn alt_view(file: Option<FileModel>, restoring: bool) -> Option<Seq<char>> {
    match file {
        Some(f) => match f.redirected {
            Some(target) => Some(
                if restoring {
                    f.path
                } else {
                    target
                },
            ),
            None => None,
        },
        None => None,
    }
}

pub open spec fn rows_views(rows: Seq<TreeRow>) -> Seq<RowModel> {
    rows.map_values(|r: TreeRow| row_model(r))
}

/// The next depth down, saturating at the type's limit.
pub open spec fn deeper(depth: usize) -> usize {
    if depth == usize::MAX {
        depth
    } else {
        (depth + 1) as usize
    }
}

/// The rows that one node contributes: a single row for a leaf; for a node
/// with exactly one child that itself has children, the child's rows under a
/// merged label; otherwise a header row, followed by the rows of its
/// showable children when expanded.
pub open spec fn spec_rows(m: NodeModel, depth: usize, label: Seq<char>, restoring: bool) -> Seq<RowModel>
    decreases m, 1int,
{
    if m.children.len() == 0 {
        seq![
            RowModel {
                label,
                keys: m.keys,
                depth,
                expanded: m.expanded,
                is_leaf: true,
                ignored: m.ignored,
                successful: m.successful,
                duplicated: m.duplicated,
                change: m.change,
                redirected: alt_view(m.scanned_file, restoring),
                has_ignore_toggle: m.path is Some,
            },
        ]
    } else if m.children.len() == 1 && m.children[0].1.children.len() > 0 {
        spec_rows(m.children[0].1, depth, label + seq!['/'] + m.children[0].0, restoring)
    } else {
        let header = RowModel {
            label,
            keys: m.keys,
            depth,
            expanded: m.expanded,
            is_leaf: false,
            ignored: m.ignored,
            successful: m.successful,
            duplicated: m.duplicated,
            change: m.change,
            redirected: None,
            has_ignore_toggle: m.path is Some,
        };
        seq![header] + if m.expanded {
            spec_child_rows(m.children, deeper(depth), restoring)
        } else {
            Seq::empty()
        }
    }
}

/// The rows of a child sequence, in order, showable subtrees only.
pub open spec fn spec_child_rows(
    children: Seq<(Seq<char>, NodeModel)>,
    depth: usize,
    restoring: bool,
) -> Seq<RowModel>
    decreases children, 0int,
{
    if children.len() == 0 {
        Seq::empty()
    } else {
        spec_child_rows(children.drop_last(), depth, restoring) + if children.last().1.spec_showable() {
            spec_rows(children.last().1, depth, children.last().0, restoring)
        } else {
            Seq::empty()
        }
    }
}

impl FileTreeNode {
    /// The rows this node contributes to the display, under the given label
    /// and depth; `restoring` picks the direction of the redirected badge.
    pub fn view(&self, level: usize, label: String, restoring: bool) -> (rows: Vec<TreeRow>)
        ensures
            rows_views(rows@) == spec_rows(self.model(), level, label@, restoring),
        decreases *self,
    {
        let ghost m = self.model();
        if self.nodes.len() == 0 {
            let redirected: Option<String> = match &self.scanned_file {
                Some(sf) => match sf.alt(restoring) {
                    Some(p) => Some(p.raw.clone()),
                    None => None,
                },
                None => None,
            };
            proof {
                assert(match redirected {
                    Some(p) => Some(p@),
                    None => None::<Seq<char>>,
                } == alt_view(m.scanned_file, restoring));
            }
            let row = TreeRow {
                label,
                keys: clone_string_vec(&self.keys),
                depth: level,
                expanded: self.expanded,
                is_leaf: true,
                ignored: self.ignored,
                successful: self.successful,
                duplicated: self.duplicated,
                change: self.change,
                redirected,
                has_ignore_toggle: self.path.is_some(),
            };
            let mut rows: Vec<TreeRow> = Vec::new();
            rows.push(row);
            proof {
                assert(rows_views(rows@) =~= spec_rows(m, level, label@, restoring));
            }
            return rows;
        }
        if self.nodes.len() == 1 && self.nodes[0].1.nodes.len() > 0 {
            let mut merged = label;
            merged.append("/");
            merged.append(self.nodes[0].0.as_str());
            proof {
                reveal_strlit("/");
                assert("/"@ =~= seq!['/']);
            }
            let rows = self.nodes[0].1.view(level, merged, restoring);
            return rows;
        }
        let header = TreeRow {
            label,
            keys: clone_string_vec(&self.keys),
            depth: level,
            expanded: self.expanded,
            is_leaf: false,
            ignored: self.ignored,
            successful: self.successful,
            duplicated: self.duplicated,
            change: self.change,
            redirected: None,
            has_ignore_toggle: self.path.is_some(),
        };
        let ghost hm = row_model(header);
        let mut rows: Vec<TreeRow> = Vec::new();
        rows.push(header);
        proof {
            assert(rows_views(rows@) =~= seq![hm]);
        }
        if self.expanded {
            let next = if level == usize::MAX {
                level
            } else {
                level + 1
            };
            let mut i: usize = 0;
            proof {
                assert(m.children.take(0) =~= Seq::<(Seq<char>, NodeModel)>::empty());
                assert(rows_views(rows@) =~= seq![hm] + spec_child_rows(
                    m.children.take(0),
                    next,
                    restoring,
                ));
            }
            while i < self.nodes.len()
                invariant
                    i <= self.nodes@.len(),
                    m == self.model(),
                    next == deeper(level),
                    rows_views(rows@) == seq![hm] + spec_child_rows(
                        m.children.take(i as int),
                        next,
                        restoring,
                    ),
                decreases self.nodes@.len() - i,
            {
                proof {
                    assert(m.children.take(i + 1).drop_last() =~= m.children.take(i as int));
                    assert(m.children.take(i + 1).last() == m.children[i as int]);
                    assert(m.children[i as int]
                        == (self.nodes@[i as int].0@, self.nodes@[i as int].1.model()));
                }
                if self.nodes[i].1.anything_showable() {
                    let mut sub = self.nodes[i].1.view(next, self.nodes[i].0.clone(), restoring);
                    let ghost target = seq![hm] + spec_child_rows(m.children.take(i + 1), next, restoring);
                    proof {
                        assert(rows_views(rows@) + rows_views(sub@) =~= target);
                    }
                    while sub.len() > 0
                        invariant
                            rows_views(rows@) + rows_views(sub@) == target,
                        decreases sub@.len(),
                    {
                        let r = sub.remove(0);
                        rows.push(r);
                        proof {
                            assert(rows_views(rows@) + rows_views(sub@) =~= target);
                        }
                    }
                    proof {
                        assert(rows_views(rows@) =~= target);
                    }
                } else {
                    proof {
                        assert(rows_views(rows@) =~= seq![hm] + spec_child_rows(
                            m.children.take(i + 1),
                            next,
                            restoring,
                        ));
                    }
                }
                i = i + 1;
            }
            proof {
                assert(m.children.take(self.nodes@.len() as int) =~= m.children);
                assert(rows_views(rows@) =~= spec_rows(m, level, label@, restoring));
            }
        } else {
            proof {
                assert(rows_views(rows@) =~= spec_rows(m, level, label@, restoring));
            }
        }
        rows
    }
}

/// The rows of the whole tree: every showable top-level subtree's rows, in
/// order, starting at depth zero.
pub open spec fn spec_tree_rows(t: TreeModel, restoring: bool) -> Seq<RowModel> {
    spec_child_rows(t.children, 0, restoring)
}

impl FileTree {
    /// The rows the whole tree contributes to the display; `restoring`
    /// picks the direction of the redirected badge.
    pub fn view(&self, restoring: bool) -> (rows: Vec<TreeRow>)
        ensures
            rows_views(rows@) == spec_tree_rows(self.model(), restoring),
    {
        let ghost m = self.model();
        let mut rows: Vec<TreeRow> = Vec::new();
        let mut i: usize = 0;
        proof {
            assert(m.children.take(0) =~= Seq::<(Seq<char>, NodeModel)>::empty());
            assert(rows_views(rows@) =~= spec_child_rows(m.children.take(0), 0, restoring));
        }
        while i < self.nodes.len()
            invariant
                i <= self.nodes@.len(),
                m == self.model(),
                rows_views(rows@) == spec_child_rows(m.children.take(i as int), 0, restoring),
            decreases self.nodes@.len() - i,
        {
            proof {
                assert(m.children.take(i + 1).drop_last() =~= m.children.take(i as int));
                assert(m.children.take(i + 1).last() == m.children[i as int]);
                assert(m.children[i as int]
                    == (self.nodes@[i as int].0@, self.nodes@[i as int].1.model()));
            }
            if self.nodes[i].1.anything_showable() {
                let mut sub = self.nodes[i].1.view(0, self.nodes[i].0.clone(), restoring);
                let ghost target = spec_child_rows(m.children.take(i + 1), 0, restoring);
                proof {
                    assert(rows_views(rows@) + rows_views(sub@) =~= target);
                }
                while sub.len() > 0
                    invariant
                        rows_views(rows@) + rows_views(sub@) == target,
                    decreases sub@.len(),
                {
                    let r = sub.remove(0);
                    rows.push(r);
                    proof {
                        assert(rows_views(rows@) + rows_views(sub@) =~= target);
                    }
                }
                proof {
                    assert(rows_views(rows@) =~= target);
                }
            } else {
                proof {
                    assert(rows_views(rows@) =~= spec_child_rows(m.children.take(i + 1), 0, restoring));
                }
            }
            i = i + 1;
        }
        proof {
            assert(m.children.take(self.nodes@.len() as int) =~= m.children);
        }
        rows
    }
}

} // verus!
