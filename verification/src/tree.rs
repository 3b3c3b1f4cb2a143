//! The root aggregate: an ordered mapping from top-level segment to subtree,
//! built in one pass from a scan result, with expand/collapse and ignore
//! requests forwarded to the matching child.

use vstd::prelude::*;

use crate::node::{
    file_model, find_pos, has_key, keys_of, seek_pos, seq_views, vec_key_views, FileTreeNode,
    FileTreeNodeType, NodeModel,
};
use crate::order::str_eqx;
use crate::path_key::{split_segments, spec_split};
use crate::scan::{
    BackupInfo, Config, DuplicateDetector, ScanInfo, ScannedFile, ScannedRegistry, ToggledPaths,
    ToggledRegistry,
};

verus! {

/// The mathematical counterpart of the whole tree.
#[verifier::ext_equal]
pub struct TreeModel {
    pub children: Seq<(Seq<char>, NodeModel)>,
}

/// The models of an exec child vector, in order.
pub open spec fn tree_children_model(
    nodes: Seq<(String, FileTreeNode)>,
) -> Seq<(Seq<char>, NodeModel)> {
    Seq::new(
        nodes.len(),
        |i: int|
            if 0 <= i < nodes.len() {
                (nodes[i].0@, nodes[i].1.model())
            } else {
                arbitrary()
            },
    )
}

/// One entry folded into the top-level children: the subtree for the first
/// segment is found or created, and the rest of the segments are inserted
/// below it.
pub open spec fn root_insert(
    children: Seq<(Seq<char>, NodeModel)>,
    comps: Seq<Seq<char>>,
    node_type: FileTreeNodeType,
    successful: bool,
    duplicated: bool,
    change: crate::scan::ScanChange,
    scanned_file: Option<crate::scan::FileModel>,
) -> Seq<(Seq<char>, NodeModel)>
    recommends
        comps.len() > 0,
{
    let k = comps[0];
    let p = seek_pos(keys_of(children), k);
    let c = if has_key(keys_of(children), k) {
        children[p].1
    } else {
        NodeModel::root_model(k, node_type)
    };
    let c1 = c.spec_insert(comps.skip(1), successful, duplicated, change, scanned_file);
    if has_key(keys_of(children), k) {
        children.update(p, (k, c1))
    } else {
        children.insert(p, (k, c1))
    }
}

/// One scanned file folded in: entries whose display path yields no segment
/// are skipped.
pub open spec fn add_file(
    children: Seq<(Seq<char>, NodeModel)>,
    item: ScannedFile,
    restoring: bool,
    backup: Option<BackupInfo>,
    dd: DuplicateDetector,
) -> Seq<(Seq<char>, NodeModel)> {
    let comps = spec_split(item.spec_readable(restoring), '/');
    if comps.len() == 0 {
        children
    } else {
        let successful = match backup {
            Some(b) => !b.spec_file_failed(item.path.raw@),
            None => true,
        };
        root_insert(
            children,
            comps,
            FileTreeNodeType::File,
            successful,
            dd.spec_file_duplicated(item.path.raw@),
            item.change,
            Some(item.model()),
        )
    }
}

/// All scanned files folded in, in order.
pub open spec fn build_files(
    files: Seq<ScannedFile>,
    restoring: bool,
    backup: Option<BackupInfo>,
    dd: DuplicateDetector,
) -> Seq<(Seq<char>, NodeModel)>
    decreases files.len(),
{
    if files.len() == 0 {
        Seq::empty()
    } else {
        add_file(
            build_files(files.drop_last(), restoring, backup, dd),
            files.last(),
            restoring,
            backup,
            dd,
        )
    }
}

/// One scanned registry key folded in; registry paths split at the registry
/// separator.
pub open spec fn add_registry(
    children: Seq<(Seq<char>, NodeModel)>,
    item: ScannedRegistry,
    backup: Option<BackupInfo>,
    dd: DuplicateDetector,
) -> Seq<(Seq<char>, NodeModel)> {
    let comps = spec_split(item.path.raw@, '\\');
    if comps.len() == 0 {
        children
    } else {
        let successful = match backup {
            Some(b) => !b.spec_registry_failed(item.path.raw@),
            None => true,
        };
        root_insert(
            children,
            comps,
            FileTreeNodeType::Registry,
            successful,
            dd.spec_registry_duplicated(item.path.raw@),
            item.change,
            None,
        )
    }
}

/// All scanned registry keys folded in, in order, after the files.
pub open spec fn build_registry(
    children: Seq<(Seq<char>, NodeModel)>,
    entries: Seq<ScannedRegistry>,
    backup: Option<BackupInfo>,
    dd: DuplicateDetector,
) -> Seq<(Seq<char>, NodeModel)>
    decreases entries.len(),
{
    if entries.len() == 0 {
        children
    } else {
        add_registry(
            build_registry(children, entries.drop_last(), backup, dd),
            entries.last(),
            backup,
            dd,
        )
    }
}

/// Every top-level subtree auto-expanded and its ignore flags rederived.
pub open spec fn finalize(
    children: Seq<(Seq<char>, NodeModel)>,
    game: Seq<char>,
    toggled_paths: ToggledPaths,
    toggled_registry: ToggledRegistry,
) -> Seq<(Seq<char>, NodeModel)> {
    Seq::new(
        children.len(),
        |i: int|
            if 0 <= i < children.len() {
                (
                    children[i].0,
                    children[i].1.spec_expand_short().spec_update_ignored(
                        game,
                        toggled_paths,
                        toggled_registry,
                    ),
                )
            } else {
                arbitrary()
            },
    )
}

/// What one whole build yields: a function of the inputs alone.
pub open spec fn spec_build(
    scan: ScanInfo,
    config: Config,
    backup: Option<BackupInfo>,
    dd: DuplicateDetector,
) -> TreeModel {
    TreeModel {
        children: finalize(
            build_registry(
                build_files(scan.found_files@, scan.restoring, backup, dd),
                scan.found_registry_keys@,
                backup,
                dd,
            ),
            scan.game_name@,
            config.backup.toggled_paths,
            config.backup.toggled_registry,
        ),
    }
}

/// Folds one entry's segments into the top-level children in place.
#[verifier::rlimit(100)]
fn insert_root(
    nodes: &mut Vec<(String, FileTreeNode)>,
    comps: &Vec<String>,
    node_type: FileTreeNodeType,
    successful: bool,
    duplicated: bool,
    change: crate::scan::ScanChange,
    scanned_file: Option<ScannedFile>,
)
    requires
        comps@.len() > 0,
    ensures
        tree_children_model(final(nodes)@) == root_insert(
            tree_children_model(old(nodes)@),
            seq_views(comps@),
            node_type,
            successful,
            duplicated,
            change,
            file_model(scanned_file),
        ),
{
    let ghost oldc = tree_children_model(old(nodes)@);
    let ghost k = comps@[0]@;
    proof {
        assert(keys_of(oldc) =~= vec_key_views(nodes@));
        assert(seq_views(comps@)[0] == k);
    }
    let p = find_pos(nodes, comps[0].as_str());
    let present = if p < nodes.len() {
        str_eqx(nodes[p].0.as_str(), comps[0].as_str())
    } else {
        false
    };
    proof {
        assert(present == has_key(keys_of(oldc), k));
    }
    let mut entry: (String, FileTreeNode) = if present {
        nodes.remove(p)
    } else {
        let mut root_keys: Vec<String> = Vec::new();
        root_keys.push(comps[0].clone());
        let child = FileTreeNode::new(root_keys, None, node_type);
        proof {
            assert(child.model().keys =~= seq![k]);
            assert(child.model() =~= NodeModel::root_model(k, node_type));
        }
        (comps[0].clone(), child)
    };
    proof {
        if present {
            assert(entry.1.model() == oldc[p as int].1);
        }
    }
    entry.1.insert_keys(comps, 1, successful, duplicated, change, scanned_file);
    nodes.insert(p, entry);
    proof {
        let fin = tree_children_model(nodes@);
        let tgt = root_insert(
            oldc,
            seq_views(comps@),
            node_type,
            successful,
            duplicated,
            change,
            file_model(scanned_file),
        );
        assert(fin.len() == tgt.len());
        assert(fin =~= tgt) by {
            if present {
                assert forall|i: int| 0 <= i < fin.len() implies fin[i] == tgt[i] by {
                    if i < p {
                        assert(nodes@[i] == old(nodes)@[i]);
                    } else if i > p {
                        assert(nodes@[i] == old(nodes)@.remove(p as int).insert(
                            p as int,
                            nodes@[p as int],
                        )[i]);
                        assert(nodes@[i] == old(nodes)@[i]);
                    }
                }
            } else {
                assert forall|i: int| 0 <= i < fin.len() implies fin[i] == tgt[i] by {
                    if i < p {
                        assert(nodes@[i] == old(nodes)@[i]);
                    } else if i > p {
                        assert(nodes@[i] == old(nodes)@[i - 1]);
                    }
                }
            }
        }
    }
}

/// The whole tree: every top-level segment's subtree, ordered by segment.
#[derive(Debug)]
pub struct FileTree {
    pub nodes: Vec<(String, FileTreeNode)>,
}

impl FileTree {
    pub open spec fn model(self) -> TreeModel {
        TreeModel { children: tree_children_model(self.nodes@) }
    }

    /// Builds the whole tree in one pass: files, then registry keys, then
    /// auto-expansion and ignore flags. The result is a function of the
    /// inputs alone.
    #[verifier::rlimit(100)]
    pub fn new(
        scan_info: ScanInfo,
        config: &Config,
        backup_info: &Option<BackupInfo>,
        duplicate_detector: &DuplicateDetector,
    ) -> (r: Self)
        ensures
            r.model() == spec_build(scan_info, *config, *backup_info, *duplicate_detector),
    {
        let mut nodes: Vec<(String, FileTreeNode)> = Vec::new();
        let restoring = scan_info.restoring();
        proof {
            assert(scan_info.found_files@.take(0) =~= Seq::<ScannedFile>::empty());
            assert(tree_children_model(nodes@) =~= Seq::<(Seq<char>, NodeModel)>::empty());
        }
        let mut fi: usize = 0;
        while fi < scan_info.found_files.len()
            invariant
                fi <= scan_info.found_files@.len(),
                restoring == scan_info.restoring,
                tree_children_model(nodes@) == build_files(
                    scan_info.found_files@.take(fi as int),
                    scan_info.restoring,
                    *backup_info,
                    *duplicate_detector,
                ),
            decreases scan_info.found_files@.len() - fi,
        {
            let item = &scan_info.found_files[fi];
            let successful = match backup_info {
                Some(b) => !b.file_failed(&item.path),
                None => true,
            };
            let dup = duplicate_detector.is_file_duplicated(item);
            let rendered = item.readable(restoring);
            let comps = split_segments(rendered.as_str(), '/');
            proof {
                assert(scan_info.found_files@.take(fi + 1).drop_last() =~= scan_info.found_files@.take(
                    fi as int,
                ));
                assert(scan_info.found_files@.take(fi + 1).last() == scan_info.found_files@[fi as int]);
            }
            if comps.len() > 0 {
                proof {
                    assert(seq_views(comps@).len() > 0);
                }
                insert_root(
                    &mut nodes,
                    &comps,
                    FileTreeNodeType::File,
                    successful,
                    dup,
                    item.change,
                    Some(item.clone()),
                );
            } else {
                proof {
                    assert(seq_views(comps@).len() == 0);
                }
            }
            fi = fi + 1;
        }
        proof {
            assert(scan_info.found_files@.take(scan_info.found_files@.len() as int)
                =~= scan_info.found_files@);
            assert(scan_info.found_registry_keys@.take(0) =~= Seq::<ScannedRegistry>::empty());
        }
        let ghost file_children = tree_children_model(nodes@);
        let mut ri: usize = 0;
        while ri < scan_info.found_registry_keys.len()
            invariant
                ri <= scan_info.found_registry_keys@.len(),
                tree_children_model(nodes@) == build_registry(
                    file_children,
                    scan_info.found_registry_keys@.take(ri as int),
                    *backup_info,
                    *duplicate_detector,
                ),
                file_children == build_files(
                    scan_info.found_files@,
                    scan_info.restoring,
                    *backup_info,
                    *duplicate_detector,
                ),
            decreases scan_info.found_registry_keys@.len() - ri,
        {
            let item = &scan_info.found_registry_keys[ri];
            let successful = match backup_info {
                Some(b) => !b.registry_failed(&item.path),
                None => true,
            };
            let dup = duplicate_detector.is_registry_duplicated(&item.path);
            let comps = split_segments(item.path.raw.as_str(), '\\');
            proof {
                assert(scan_info.found_registry_keys@.take(ri + 1).drop_last()
                    =~= scan_info.found_registry_keys@.take(ri as int));
                assert(scan_info.found_registry_keys@.take(ri + 1).last()
                    == scan_info.found_registry_keys@[ri as int]);
            }
            if comps.len() > 0 {
                proof {
                    assert(seq_views(comps@).len() > 0);
                }
                insert_root(
                    &mut nodes,
                    &comps,
                    FileTreeNodeType::Registry,
                    successful,
                    dup,
                    item.change,
                    None,
                );
            } else {
                proof {
                    assert(seq_views(comps@).len() == 0);
                }
            }
            ri = ri + 1;
        }
        proof {
            assert(scan_info.found_registry_keys@.take(scan_info.found_registry_keys@.len() as int)
                =~= scan_info.found_registry_keys@);
        }
        let ghost mid = tree_children_model(nodes@);
        let mut i: usize = 0;
        while i < nodes.len()
            invariant
                i <= nodes@.len(),
                nodes@.len() == mid.len(),
                forall|j: int|
                    0 <= j < i ==> nodes@[j].0@ == mid[j].0 && nodes@[j].1.model()
                        == mid[j].1.spec_expand_short().spec_update_ignored(
                        scan_info.game_name@,
                        config.backup.toggled_paths,
                        config.backup.toggled_registry,
                    ),
                forall|j: int|
                    i <= j < nodes@.len() ==> (nodes@[j].0@, nodes@[j].1.model()) == mid[j],
            decreases nodes@.len() - i,
        {
            let mut entry = nodes.remove(i);
            proof {
                assert((entry.0@, entry.1.model()) == mid[i as int]);
            }
            entry.1.expand_short();
            entry.1.update_ignored(
                scan_info.game_name.as_str(),
                &config.backup.toggled_paths,
                &config.backup.toggled_registry,
            );
            nodes.insert(i, entry);
            i = i + 1;
        }
        let r = FileTree { nodes };
        proof {
            let tgt = spec_build(scan_info, *config, *backup_info, *duplicate_detector);
            assert forall|j: int|
                0 <= j < r.model().children.len()
                    implies r.model().children[j] == tgt.children[j] by {
                assert(r.nodes@[j].1.model() == mid[j].1.spec_expand_short().spec_update_ignored(
                    scan_info.game_name@,
                    config.backup.toggled_paths,
                    config.backup.toggled_registry,
                ));
            }
            assert(r.model().children =~= tgt.children);
            assert(r.model() =~= tgt);
        }
        r
    }

    /// Flips `expanded` at the addressed node, dispatched to the matching
    /// top-level child; a silent no-op when no child matches.
    pub fn expand_or_collapse_keys(&mut self, keys: &Vec<String>)
        ensures
            final(self).model() == old(self).model().spec_toggle_tree(seq_views(keys@)),
    {
        let ghost oldm = self.model();
        let ghost path = seq_views(keys@);
        if keys.len() == 0 {
            proof {
                assert(self.model() =~= oldm.spec_toggle_tree(path));
            }
            return;
        }
        proof {
            assert(keys_of(oldm.children) =~= vec_key_views(self.nodes@));
            assert(path[0] == keys@[0]@);
        }
        let p = find_pos(&self.nodes, keys[0].as_str());
        let present = if p < self.nodes.len() {
            str_eqx(self.nodes[p].0.as_str(), keys[0].as_str())
        } else {
            false
        };
        proof {
            assert(present == has_key(keys_of(oldm.children), path[0]));
        }
        if present {
            let mut entry = self.nodes.remove(p);
            proof {
                assert(entry.1.model() == oldm.children[p as int].1);
            }
            entry.1.expand_or_collapse_keys(keys, 1);
            self.nodes.insert(p, entry);
            proof {
                let fin = self.model();
                let tgt = oldm.spec_toggle_tree(path);
                assert(path.skip(1) =~= seq_views(keys@).skip(1));
                assert forall|j: int|
                    0 <= j < fin.children.len()
                        implies fin.children[j] == tgt.children[j] by {
                    if j < p {
                        assert(self.nodes@[j] == old(self).nodes@[j]);
                    } else if j > p {
                        assert(self.nodes@[j] == old(self).nodes@.remove(p as int).insert(
                            p as int,
                            self.nodes@[p as int],
                        )[j]);
                        assert(self.nodes@[j] == old(self).nodes@[j]);
                    }
                }
                assert(fin.children =~= tgt.children);
                assert(fin =~= tgt);
            }
        } else {
            proof {
                assert(self.model() =~= oldm.spec_toggle_tree(path));
            }
        }
    }

    /// Rederives every node's `ignored` flag from the configuration, in every
    /// top-level subtree.
    pub fn update_ignored(
        &mut self,
        game: &str,
        ignored_paths: &ToggledPaths,
        ignored_registry: &ToggledRegistry,
    )
        ensures
            final(self).model() == old(self).model().spec_update_ignored_tree(
                game@,
                *ignored_paths,
                *ignored_registry,
            ),
    {
        let ghost oldn = self.nodes@;
        let mut i: usize = 0;
        while i < self.nodes.len()
            invariant
                i <= self.nodes@.len(),
                self.nodes@.len() == oldn.len(),
                forall|j: int|
                    0 <= j < i ==> self.nodes@[j].0 == oldn[j].0 && self.nodes@[j].1.model()
                        == oldn[j].1.model().spec_update_ignored(
                        game@,
                        *ignored_paths,
                        *ignored_registry,
                    ),
                forall|j: int| i <= j < self.nodes@.len() ==> self.nodes@[j] == oldn[j],
            decreases self.nodes@.len() - i,
        {
            let mut entry = self.nodes.remove(i);
            proof {
                assert(entry == oldn[i as int]);
            }
            entry.1.update_ignored(game, ignored_paths, ignored_registry);
            self.nodes.insert(i, entry);
            i = i + 1;
        }
        proof {
            let fin = self.model();
            let tgt = old(self).model().spec_update_ignored_tree(
                game@,
                *ignored_paths,
                *ignored_registry,
            );
            assert forall|j: int|
                0 <= j < fin.children.len() implies fin.children[j] == tgt.children[j] by {
                assert(self.nodes@[j].1.model() == oldn[j].1.model().spec_update_ignored(
                    game@,
                    *ignored_paths,
                    *ignored_registry,
                ));
            }
            assert(fin.children =~= tgt.children);
            assert(fin =~= tgt);
        }
    }
}

impl TreeModel {
    /// The node addressed by `path`, if its first segment matches a
    /// top-level child and the rest resolves below it.
    pub open spec fn node_at(self, path: Seq<Seq<char>>) -> Option<NodeModel> {
        if path.len() > 0 && has_key(keys_of(self.children), path[0]) {
            self.children[seek_pos(keys_of(self.children), path[0])].1.node_at(path.skip(1))
        } else {
            None
        }
    }

    /// Toggling dispatched at the root: a no-op unless a top-level child
    /// matches the first segment.
    pub open spec fn spec_toggle_tree(self, path: Seq<Seq<char>>) -> TreeModel {
        if path.len() == 0 {
            self
        } else if has_key(keys_of(self.children), path[0]) {
            let p = seek_pos(keys_of(self.children), path[0]);
            TreeModel {
                children: self.children.update(
                    p,
                    (path[0], self.children[p].1.spec_toggle(path.skip(1))),
                ),
            }
        } else {
            self
        }
    }

    /// Ignore recomputation applied to every top-level subtree.
    pub open spec fn spec_update_ignored_tree(
        self,
        game: Seq<char>,
        toggled_paths: ToggledPaths,
        toggled_registry: ToggledRegistry,
    ) -> TreeModel {
        TreeModel {
            children: Seq::new(
                self.children.len(),
                |i: int|
                    if 0 <= i < self.children.len() {
                        (
                            self.children[i].0,
                            self.children[i].1.spec_update_ignored(
                                game,
                                toggled_paths,
                                toggled_registry,
                            ),
                        )
                    } else {
                        arbitrary()
                    },
            ),
        }
    }
}

} // verus!
