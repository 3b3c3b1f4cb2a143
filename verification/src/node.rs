//! One subtree of the path tree: a recursive node with an ordered child map,
//! per-leaf scan status, and session expansion state.

use vstd::prelude::*;

use crate::order::{seq_str_lt, str_eqx, str_lt};
use crate::scan::{
    FileModel, RegistryItem, ScanChange, ScannedFile, StrictPath, ToggledPaths, ToggledRegistry,
};

verus! {

/// Direct child counts below this limit are opened automatically after a
/// rebuild; wider nodes stay collapsed.
pub const AUTO_EXPAND_LIMIT: usize = 30;

/// Which namespace a subtree belongs to; fixed per top-level root.
#[derive(Clone, Copy, Debug, PartialEq, Eq, Structural)]
pub enum FileTreeNodeType {
    File,
    Registry,
}

/// The full address of a node, rendered in the namespace's path type.
#[derive(Debug)]
pub enum FileTreeNodePath {
    File(StrictPath),
    Registry(RegistryItem),
}

impl Clone for FileTreeNodePath {
    fn clone(&self) -> (r: Self)
        ensures
            path_model(Some(r)) == path_model(Some(*self)),
    {
        match self {
            FileTreeNodePath::File(p) => FileTreeNodePath::File(p.clone()),
            FileTreeNodePath::Registry(p) => FileTreeNodePath::Registry(p.clone()),
        }
    }
}

/// The mathematical counterpart of `FileTreeNodePath`.
pub enum PathModel {
    File(Seq<char>),
    Registry(Seq<char>),
}

pub open spec fn path_model(p: Option<FileTreeNodePath>) -> Option<PathModel> {
    match p {
        Some(FileTreeNodePath::File(sp)) => Some(PathModel::File(sp.raw@)),
        Some(FileTreeNodePath::Registry(ri)) => Some(PathModel::Registry(ri.raw@)),
        None => None,
    }
}

pub open spec fn file_model(f: Option<ScannedFile>) -> Option<FileModel> {
    match f {
        Some(sf) => Some(sf.model()),
        None => None,
    }
}

/// The views of a sequence of strings.
pub open spec fn seq_views(v: Seq<String>) -> Seq<Seq<char>> {
    v.map_values(|s: String| s@)
}

/// The mathematical counterpart of a node.
#[verifier::ext_equal]
pub struct NodeModel {
    pub keys: Seq<Seq<char>>,
    pub expanded: bool,
    pub path: Option<PathModel>,
    pub children: Seq<(Seq<char>, NodeModel)>,
    pub successful: bool,
    pub ignored: bool,
    pub duplicated: bool,
    pub change: ScanChange,
    pub scanned_file: Option<FileModel>,
    pub node_type: FileTreeNodeType,
}

/// The keys of a child sequence, in order.
pub open spec fn keys_of(children: Seq<(Seq<char>, NodeModel)>) -> Seq<Seq<char>> {
    children.map_values(|c: (Seq<char>, NodeModel)| c.0)
}

/// Where `k` sits in `keys`: the number of leading keys ordered before it.
/// In a sorted sequence this is both the lookup index and the insertion
/// point.
pub open spec fn seek_pos(keys: Seq<Seq<char>>, k: Seq<char>) -> int
    decreases keys.len(),
{
    if keys.len() == 0 {
        0
    } else if seq_str_lt(keys[0], k) {
        1 + seek_pos(keys.skip(1), k)
    } else {
        0
    }
}

pub open spec fn has_key(keys: Seq<Seq<char>>, k: Seq<char>) -> bool {
    seek_pos(keys, k) < keys.len() && keys[seek_pos(keys, k)] == k
}

/// `seek_pos` is the unique boundary between keys ordered before `k` and the
/// rest.
pub proof fn lemma_seek_pos_bounds(keys: Seq<Seq<char>>, k: Seq<char>)
    ensures
        0 <= seek_pos(keys, k) <= keys.len(),
        forall|j: int| 0 <= j < seek_pos(keys, k) ==> seq_str_lt(keys[j], k),
        seek_pos(keys, k) < keys.len() ==> !seq_str_lt(keys[seek_pos(keys, k)], k),
    decreases keys.len(),
{
    if keys.len() > 0 && seq_str_lt(keys[0], k) {
        lemma_seek_pos_bounds(keys.skip(1), k);
        let p = seek_pos(keys, k);
        assert forall|j: int| 0 <= j < p implies seq_str_lt(keys[j], k) by {
            if j > 0 {
                assert(keys.skip(1)[j - 1] == keys[j]);
            }
        }
        if p < keys.len() {
            assert(keys.skip(1)[p - 1] == keys[p]);
        }
    }
}

/// Any boundary with the `seek_pos` shape is `seek_pos`.
pub proof fn lemma_seek_pos_char(keys: Seq<Seq<char>>, k: Seq<char>, p: int)
    requires
        0 <= p <= keys.len(),
        forall|j: int| 0 <= j < p ==> seq_str_lt(keys[j], k),
        p < keys.len() ==> !seq_str_lt(keys[p], k),
    ensures
        seek_pos(keys, k) == p,
    decreases keys.len(),
{
    if keys.len() > 0 {
        if p == 0 {
            if seq_str_lt(keys[0], k) {
                assert(!seq_str_lt(keys[p], k));
            }
        } else {
            assert(seq_str_lt(keys[0], k));
            assert forall|j: int| 0 <= j < p - 1 implies seq_str_lt(keys.skip(1)[j], k) by {
                assert(keys.skip(1)[j] == keys[j + 1]);
            }
            if p - 1 < keys.skip(1).len() {
                assert(keys.skip(1)[p - 1] == keys[p]);
            }
            lemma_seek_pos_char(keys.skip(1), k, p - 1);
        }
    }
}

impl NodeModel {
    /// The state of a node that `toggle` creates defensively when an address
    /// does not resolve.
    pub open spec fn default_model() -> NodeModel {
        NodeModel {
            keys: Seq::empty(),
            expanded: false,
            path: None,
            children: Seq::empty(),
            successful: false,
            ignored: false,
            duplicated: false,
            change: ScanChange::Unknown,
            scanned_file: None,
            node_type: FileTreeNodeType::File,
        }
    }

    /// A top-level root node for segment `k`.
    pub open spec fn root_model(k: Seq<char>, node_type: FileTreeNodeType) -> NodeModel {
        NodeModel {
            keys: seq![k],
            path: None,
            node_type,
            ..NodeModel::default_model()
        }
    }

    /// The child that `insert` creates below `self` for segment `k`: it is
    /// addressed by the extended key sequence, rendered in the subtree's
    /// namespace.
    pub open spec fn fresh_child(self, k: Seq<char>) -> NodeModel {
        let ck = self.keys.push(k);
        NodeModel {
            keys: ck,
            path: Some(
                match self.node_type {
                    FileTreeNodeType::File => PathModel::File(join_segs(ck)),
                    FileTreeNodeType::Registry => PathModel::Registry(join_segs(ck)),
                },
            ),
            node_type: self.node_type,
            ..NodeModel::default_model()
        }
    }

    /// `self` with its leaf status overwritten; the last write wins.
    pub open spec fn leaf_updated(
        self,
        successful: bool,
        duplicated: bool,
        change: ScanChange,
        scanned_file: Option<FileModel>,
    ) -> NodeModel {
        NodeModel { successful, duplicated, change, scanned_file, ..self }
    }

    /// `self` with child `c` stored under `k`, replacing an equal key or
    /// inserted at its ordered position.
    pub open spec fn with_child(self, k: Seq<char>, c: NodeModel) -> NodeModel {
        let p = seek_pos(keys_of(self.children), k);
        if has_key(keys_of(self.children), k) {
            NodeModel { children: self.children.update(p, (k, c)), ..self }
        } else {
            NodeModel { children: self.children.insert(p, (k, c)), ..self }
        }
    }

    /// The child stored under `k`, which must exist.
    pub open spec fn child_at(self, k: Seq<char>) -> NodeModel {
        self.children[seek_pos(keys_of(self.children), k)].1
    }

    /// Walking/creating one node per remaining segment, then overwriting the
    /// terminal node's leaf status.
    pub open spec fn spec_insert(
        self,
        rem: Seq<Seq<char>>,
        successful: bool,
        duplicated: bool,
        change: ScanChange,
        scanned_file: Option<FileModel>,
    ) -> NodeModel
        decreases rem.len(),
    {
        if rem.len() == 0 {
            self.leaf_updated(successful, duplicated, change, scanned_file)
        } else {
            let k = rem[0];
            let c = if has_key(keys_of(self.children), k) {
                self.child_at(k)
            } else {
                self.fresh_child(k)
            };
            self.with_child(
                k,
                c.spec_insert(rem.skip(1), successful, duplicated, change, scanned_file),
            )
        }
    }

    /// Walking to the addressed node, creating missing nodes with default
    /// state, then flipping its `expanded` flag.
    pub open spec fn spec_toggle(self, rem: Seq<Seq<char>>) -> NodeModel
        decreases rem.len(),
    {
        if rem.len() == 0 {
            NodeModel { expanded: !self.expanded, ..self }
        } else {
            let k = rem[0];
            let c = if has_key(keys_of(self.children), k) {
                self.child_at(k)
            } else {
                NodeModel::default_model()
            };
            self.with_child(k, c.spec_toggle(rem.skip(1)))
        }
    }

    /// Opening every node whose direct child count is under the limit,
    /// recursively.
    pub open spec fn spec_expand_short(self) -> NodeModel
        decreases self,
    {
        NodeModel {
            expanded: if self.children.len() < AUTO_EXPAND_LIMIT as nat {
                true
            } else {
                self.expanded
            },
            children: Seq::new(
                self.children.len(),
                |i: int|
                    if 0 <= i < self.children.len() {
                        (self.children[i].0, self.children[i].1.spec_expand_short())
                    } else {
                        arbitrary()
                    },
            ),
            ..self
        }
    }

    /// Rederiving every node's `ignored` flag from the configuration.
    pub open spec fn spec_update_ignored(
        self,
        game: Seq<char>,
        toggled_paths: ToggledPaths,
        toggled_registry: ToggledRegistry,
    ) -> NodeModel
        decreases self,
    {
        NodeModel {
            ignored: match self.path {
                Some(PathModel::File(p)) => toggled_paths.spec_is_ignored(game, p),
                Some(PathModel::Registry(p)) => toggled_registry.spec_is_ignored(game, p),
                None => self.ignored,
            },
            children: Seq::new(
                self.children.len(),
                |i: int|
                    if 0 <= i < self.children.len() {
                        (
                            self.children[i].0,
                            self.children[i].1.spec_update_ignored(
                                game,
                                toggled_paths,
                                toggled_registry,
                            ),
                        )
                    } else {
                        arbitrary()
                    },
            ),
            ..self
        }
    }

    /// True when the node is a leaf or some descendant is showable.
    pub open spec fn spec_showable(self) -> bool
        decreases self,
    {
        self.children.len() == 0 || exists|i: int|
            0 <= i < self.children.len() && self.children[i].1.spec_showable()
    }

    /// The node addressed by `path`, if each segment resolves.
    pub open spec fn node_at(self, path: Seq<Seq<char>>) -> Option<NodeModel>
        decreases path.len(),
    {
        if path.len() == 0 {
            Some(self)
        } else if has_key(keys_of(self.children), path[0]) {
            self.child_at(path[0]).node_at(path.skip(1))
        } else {
            None
        }
    }

    /// Children are strictly sorted by key, recursively.
    pub open spec fn wf(self) -> bool
        decreases self,
    {
        (forall|i: int, j: int|
            0 <= i < j < self.children.len() ==> seq_str_lt(
                self.children[i].0,
                self.children[j].0,
            )) && (forall|i: int|
            0 <= i < self.children.len() ==> self.children[i].1.wf())
    }
}

/// A child sequence strictly sorted by key, each child well-formed.
pub open spec fn wf_children(children: Seq<(Seq<char>, NodeModel)>) -> bool {
    (forall|i: int, j: int|
        0 <= i < j < children.len() ==> seq_str_lt(children[i].0, children[j].0)) && (forall|
        i: int,
    |
        0 <= i < children.len() ==> children[i].1.wf())
}

/// One segment's subtree.
#[derive(Debug)]
pub struct FileTreeNode {
    /// The full segment path from the tree root to this node.
    pub keys: Vec<String>,
    pub expanded: bool,
    pub path: Option<FileTreeNodePath>,
    /// Children, strictly sorted by segment.
    pub nodes: Vec<(String, FileTreeNode)>,
    pub successful: bool,
    pub ignored: bool,
    pub duplicated: bool,
    pub change: ScanChange,
    pub scanned_file: Option<ScannedFile>,
    pub node_type: FileTreeNodeType,
}

/// The key views of an exec child vector.
pub open spec fn vec_key_views(nodes: Seq<(String, FileTreeNode)>) -> Seq<Seq<char>> {
    nodes.map_values(|p: (String, FileTreeNode)| p.0@)
}

impl FileTreeNode {
    pub open spec fn model(self) -> NodeModel
        decreases self,
    {
        NodeModel {
            keys: seq_views(self.keys@),
            expanded: self.expanded,
            path: path_model(self.path),
            children: Seq::new(
                self.nodes@.len(),
                |i: int|
                    if 0 <= i < self.nodes@.len() {
                        (self.nodes@[i].0@, self.nodes@[i].1.model())
                    } else {
                        arbitrary()
                    },
            ),
            successful: self.successful,
            ignored: self.ignored,
            duplicated: self.duplicated,
            change: self.change,
            scanned_file: file_model(self.scanned_file),
            node_type: self.node_type,
        }
    }

    pub fn new(
        keys: Vec<String>,
        path: Option<FileTreeNodePath>,
        node_type: FileTreeNodeType,
    ) -> (r: Self)
        ensures
            r.model() == (NodeModel {
                keys: seq_views(keys@),
                path: path_model(path),
                node_type,
                ..NodeModel::default_model()
            }),
    {
        let r = FileTreeNode {
            keys,
            expanded: false,
            path,
            nodes: Vec::new(),
            successful: false,
            ignored: false,
            duplicated: false,
            change: ScanChange::Unknown,
            scanned_file: None,
            node_type,
        };
        proof {
            let m = r.model();
            let t = NodeModel {
                keys: seq_views(r.keys@),
                path: path_model(r.path),
                node_type,
                ..NodeModel::default_model()
            };
            assert(m.children =~= t.children);
            assert(m.keys =~= t.keys);
            assert(m =~= t);
        }
        r
    }
}

impl FileTreeNode {
    /// True when this node is a leaf or some descendant is.
    pub fn anything_showable(&self) -> (r: bool)
        ensures
            r == self.model().spec_showable(),
        decreases *self,
    {
        if self.nodes.len() == 0 {
            return true;
        }
        let mut i: usize = 0;
        while i < self.nodes.len()
            invariant
                i <= self.nodes@.len(),
                forall|j: int|
                    0 <= j < i ==> !self.nodes@[j].1.model().spec_showable(),
            decreases self.nodes@.len() - i,
        {
            if self.nodes[i].1.anything_showable() {
                proof {
                    assert(self.model().children[i as int].1.spec_showable());
                }
                return true;
            }
            i = i + 1;
        }
        proof {
            assert forall|j: int|
                0 <= j < self.model().children.len()
                    implies !self.model().children[j].1.spec_showable() by {
                assert(self.model().children[j].1 == self.nodes@[j].1.model());
            }
        }
        false
    }

    /// Walks or creates one child per remaining segment of `keys[from..]`,
    /// then overwrites the terminal node's leaf status; the last write wins.
    #[verifier::rlimit(100)]
    pub fn insert_keys(
        &mut self,
        keys: &Vec<String>,
        from: usize,
        successful: bool,
        duplicated: bool,
        change: ScanChange,
        scanned_file: Option<ScannedFile>,
    )
        requires
            from <= keys@.len(),
        ensures
            final(self).model() == old(self).model().spec_insert(
                seq_views(keys@).skip(from as int),
                successful,
                duplicated,
                change,
                file_model(scanned_file),
            ),
        decreases keys@.len() - from,
    {
        let ghost sf = file_model(scanned_file);
        let ghost oldm = self.model();
        let ghost rem = seq_views(keys@).skip(from as int);
        if from == keys.len() {
            self.successful = successful;
            self.duplicated = duplicated;
            self.change = change;
            self.scanned_file = scanned_file;
            proof {
                assert(rem.len() == 0);
                assert(self.model() =~= oldm.leaf_updated(successful, duplicated, change, sf));
            }
            return;
        }
        proof {
            assert(keys_of(oldm.children) =~= vec_key_views(self.nodes@));
        }
        let ghost k = keys@[from as int]@;
        let p = find_pos(&self.nodes, keys[from].as_str());
        let present = if p < self.nodes.len() {
            str_eqx(self.nodes[p].0.as_str(), keys[from].as_str())
        } else {
            false
        };
        proof {
            assert(rem[0] == k);
            assert(rem.skip(1) =~= seq_views(keys@).skip(from + 1));
            assert(present == has_key(keys_of(oldm.children), k));
        }
        let mut entry: (String, FileTreeNode) = if present {
            self.nodes.remove(p)
        } else {
            let mut child_keys = clone_string_vec(&self.keys);
            child_keys.push(keys[from].clone());
            let joined = join_segments(&child_keys);
            let cpath = match self.node_type {
                FileTreeNodeType::File => FileTreeNodePath::File(StrictPath::new(joined)),
                FileTreeNodeType::Registry => FileTreeNodePath::Registry(
                    RegistryItem::new(joined),
                ),
            };
            let child = FileTreeNode::new(child_keys, Some(cpath), self.node_type);
            proof {
                assert(seq_views(self.keys@).push(k) =~= child.model().keys);
                assert(child.model() =~= oldm.fresh_child(k));
            }
            (keys[from].clone(), child)
        };
        proof {
            if present {
                assert(entry.1.model() == oldm.child_at(k));
            }
        }
        entry.1.insert_keys(keys, from + 1, successful, duplicated, change, scanned_file);
        self.nodes.insert(p, entry);
        proof {
            let fin = self.model();
            let tgt = oldm.spec_insert(rem, successful, duplicated, change, sf);
            assert(fin.children =~= tgt.children) by {
                if present {
                    assert forall|i: int|
                        0 <= i < fin.children.len()
                            implies fin.children[i] == tgt.children[i] by {
                        if i < p {
                            assert(self.nodes@[i] == old(self).nodes@[i]);
                        } else if i > p {
                            assert(self.nodes@[i] == old(self).nodes@.remove(p as int).insert(
                                p as int,
                                self.nodes@[p as int],
                            )[i]);
                            assert(self.nodes@[i] == old(self).nodes@[i]);
                        }
                    }
                } else {
                    assert forall|i: int|
                        0 <= i < fin.children.len()
                            implies fin.children[i] == tgt.children[i] by {
                        if i < p {
                            assert(self.nodes@[i] == old(self).nodes@[i]);
                        } else if i > p {
                            assert(self.nodes@[i] == old(self).nodes@[i - 1]);
                        }
                    }
                }
            }
            assert(fin =~= tgt);
        }
    }

    /// Walks to the node addressed by `keys[from..]`, creating missing nodes
    /// with default state, then flips its `expanded` flag.
    pub fn expand_or_collapse_keys(&mut self, keys: &Vec<String>, from: usize)
        requires
            from <= keys@.len(),
        ensures
            final(self).model() == old(self).model().spec_toggle(
                seq_views(keys@).skip(from as int),
            ),
        decreases keys@.len() - from,
    {
        let ghost oldm = self.model();
        let ghost rem = seq_views(keys@).skip(from as int);
        if from == keys.len() {
            self.expanded = !self.expanded;
            proof {
                assert(rem.len() == 0);
                assert(self.model() =~= oldm.spec_toggle(rem));
            }
            return;
        }
        proof {
            assert(keys_of(oldm.children) =~= vec_key_views(self.nodes@));
        }
        let ghost k = keys@[from as int]@;
        let p = find_pos(&self.nodes, keys[from].as_str());
        let present = if p < self.nodes.len() {
            str_eqx(self.nodes[p].0.as_str(), keys[from].as_str())
        } else {
            false
        };
        proof {
            assert(rem[0] == k);
            assert(rem.skip(1) =~= seq_views(keys@).skip(from + 1));
            assert(present == has_key(keys_of(oldm.children), k));
        }
        let mut entry: (String, FileTreeNode) = if present {
            self.nodes.remove(p)
        } else {
            let child = FileTreeNode::new(Vec::new(), None, FileTreeNodeType::File);
            proof {
                assert(seq_views(Seq::<String>::empty()) =~= Seq::<Seq<char>>::empty());
                assert(child.model() =~= NodeModel::default_model());
            }
            (keys[from].clone(), child)
        };
        proof {
            if present {
                assert(entry.1.model() == oldm.child_at(k));
            }
        }
        entry.1.expand_or_collapse_keys(keys, from + 1);
        self.nodes.insert(p, entry);
        proof {
            let fin = self.model();
            let tgt = oldm.spec_toggle(rem);
            assert(fin.children =~= tgt.children) by {
                if present {
                    assert forall|i: int|
                        0 <= i < fin.children.len()
                            implies fin.children[i] == tgt.children[i] by {
                        if i < p {
                            assert(self.nodes@[i] == old(self).nodes@[i]);
                        } else if i > p {
                            assert(self.nodes@[i] == old(self).nodes@.remove(p as int).insert(
                                p as int,
                                self.nodes@[p as int],
                            )[i]);
                            assert(self.nodes@[i] == old(self).nodes@[i]);
                        }
                    }
                } else {
                    assert forall|i: int|
                        0 <= i < fin.children.len()
                            implies fin.children[i] == tgt.children[i] by {
                        if i < p {
                            assert(self.nodes@[i] == old(self).nodes@[i]);
                        } else if i > p {
                            assert(self.nodes@[i] == old(self).nodes@[i - 1]);
                        }
                    }
                }
            }
            assert(fin =~= tgt);
        }
    }

    /// Opens every node whose direct child count is under the limit,
    /// recursing into all children.
    pub fn expand_short(&mut self)
        ensures
            final(self).model() == old(self).model().spec_expand_short(),
        decreases *old(self),
    {
        if self.nodes.len() < AUTO_EXPAND_LIMIT {
            self.expanded = true;
        }
        let mut i: usize = 0;
        while i < self.nodes.len()
            invariant
                i <= self.nodes@.len(),
                self.nodes@.len() == old(self).nodes@.len(),
                self.keys == old(self).keys,
                self.path == old(self).path,
                self.successful == old(self).successful,
                self.ignored == old(self).ignored,
                self.duplicated == old(self).duplicated,
                self.change == old(self).change,
                self.scanned_file == old(self).scanned_file,
                self.node_type == old(self).node_type,
                self.expanded == (if old(self).nodes@.len() < AUTO_EXPAND_LIMIT as nat {
                    true
                } else {
                    old(self).expanded
                }),
                forall|j: int|
                    0 <= j < i ==> self.nodes@[j].0 == old(self).nodes@[j].0
                        && self.nodes@[j].1.model() == old(
                        self,
                    ).nodes@[j].1.model().spec_expand_short(),
                forall|j: int|
                    i <= j < self.nodes@.len() ==> self.nodes@[j] == old(self).nodes@[j],
            decreases self.nodes@.len() - i,
        {
            let mut entry = self.nodes.remove(i);
            proof {
                assert(entry == old(self).nodes@[i as int]);
            }
            entry.1.expand_short();
            self.nodes.insert(i, entry);
            i = i + 1;
        }
        proof {
            let fin = self.model();
            let tgt = old(self).model().spec_expand_short();
            assert forall|j: int|
                0 <= j < fin.children.len() implies fin.children[j] == tgt.children[j] by {
                assert(self.nodes@[j].1.model() == old(
                    self,
                ).nodes@[j].1.model().spec_expand_short());
            }
            assert(fin.children =~= tgt.children);
            assert(fin =~= tgt);
        }
    }

    /// Rederives every node's `ignored` flag from the ignore configuration;
    /// callable standalone after a configuration change, without rebuilding.
    pub fn update_ignored(
        &mut self,
        game: &str,
        ignored_paths: &ToggledPaths,
        ignored_registry: &ToggledRegistry,
    )
        ensures
            final(self).model() == old(self).model().spec_update_ignored(
                game@,
                *ignored_paths,
                *ignored_registry,
            ),
        decreases *old(self),
    {
        let ig: Option<bool> = match &self.path {
            Some(FileTreeNodePath::File(p)) => Some(ignored_paths.is_ignored(game, p)),
            Some(FileTreeNodePath::Registry(p)) => Some(ignored_registry.is_ignored(game, p)),
            None => None,
        };
        match ig {
            Some(b) => {
                self.ignored = b;
            },
            None => {},
        }
        let mut i: usize = 0;
        while i < self.nodes.len()
            invariant
                i <= self.nodes@.len(),
                self.nodes@.len() == old(self).nodes@.len(),
                self.keys == old(self).keys,
                self.path == old(self).path,
                self.successful == old(self).successful,
                self.expanded == old(self).expanded,
                self.duplicated == old(self).duplicated,
                self.change == old(self).change,
                self.scanned_file == old(self).scanned_file,
                self.node_type == old(self).node_type,
                self.ignored == (match path_model(old(self).path) {
                    Some(PathModel::File(p)) => ignored_paths.spec_is_ignored(game@, p),
                    Some(PathModel::Registry(p)) => ignored_registry.spec_is_ignored(game@, p),
                    None => old(self).ignored,
                }),
                forall|j: int|
                    0 <= j < i ==> self.nodes@[j].0 == old(self).nodes@[j].0
                        && self.nodes@[j].1.model() == old(
                        self,
                    ).nodes@[j].1.model().spec_update_ignored(
                        game@,
                        *ignored_paths,
                        *ignored_registry,
                    ),
                forall|j: int|
                    i <= j < self.nodes@.len() ==> self.nodes@[j] == old(self).nodes@[j],
            decreases self.nodes@.len() - i,
        {
            let mut entry = self.nodes.remove(i);
            proof {
                assert(entry == old(self).nodes@[i as int]);
            }
            entry.1.update_ignored(game, ignored_paths, ignored_registry);
            self.nodes.insert(i, entry);
            i = i + 1;
        }
        proof {
            let fin = self.model();
            let tgt = old(self).model().spec_update_ignored(
                game@,
                *ignored_paths,
                *ignored_registry,
            );
            assert forall|j: int|
                0 <= j < fin.children.len() implies fin.children[j] == tgt.children[j] by {
                assert(self.nodes@[j].1.model() == old(
                    self,
                ).nodes@[j].1.model().spec_update_ignored(
                    game@,
                    *ignored_paths,
                    *ignored_registry,
                ));
            }
            assert(fin.children =~= tgt.children);
            assert(fin =~= tgt);
        }
    }
}

/// The ordered position of `key` among the children: the lookup index when
/// the key is present, the insertion point when it is not.
pub fn find_pos(nodes: &Vec<(String, FileTreeNode)>, key: &str) -> (p: usize)
    ensures
        p == seek_pos(vec_key_views(nodes@), key@),
        p <= nodes@.len(),
    {
    let mut j: usize = 0;
    while j < nodes.len() && str_lt(nodes[j].0.as_str(), key)
        invariant
            j <= nodes@.len(),
            forall|jj: int| 0 <= jj < j ==> seq_str_lt(vec_key_views(nodes@)[jj], key@),
        decreases nodes@.len() - j,
    {
        j = j + 1;
    }
    proof {
        lemma_seek_pos_char(vec_key_views(nodes@), key@, j as int);
    }
    j
}

/// A copy of a string vector, segment for segment.
pub fn clone_string_vec(v: &Vec<String>) -> (r: Vec<String>)
    ensures
        seq_views(r@) == seq_views(v@),
{
    let mut r: Vec<String> = Vec::new();
    let mut i: usize = 0;
    while i < v.len()
        invariant
            i <= v@.len(),
            r@.len() == i,
            forall|j: int| 0 <= j < i ==> r@[j]@ == v@[j]@,
        decreases v@.len() - i,
    {
        r.push(v[i].clone());
        i = i + 1;
    }
    proof {
        assert(seq_views(r@) =~= seq_views(v@));
    }
    r
}

/// The segments joined with the display separator.
pub fn join_segments(v: &Vec<String>) -> (r: String)
    ensures
        r@ == join_segs(seq_views(v@)),
{
    proof {
        reveal_strlit("/");
        assert("/"@ =~= seq!['/']);
    }
    let mut r = String::new();
    if v.len() == 0 {
        return r;
    }
    r.append(v[0].as_str());
    proof {
        assert(seq_views(v@).take(1) =~= seq![v@[0]@]);
        assert(r@ == join_segs(seq_views(v@).take(1)));
    }
    let mut i: usize = 1;
    while i < v.len()
        invariant
            1 <= i <= v@.len(),
            r@ == join_segs(seq_views(v@).take(i as int)),
        decreases v@.len() - i,
    {
        r.append("/");
        r.append(v[i].as_str());
        proof {
            reveal_strlit("/");
            assert("/"@ =~= seq!['/']);
            let s = seq_views(v@);
            assert(s.take(i + 1).drop_last() =~= s.take(i as int));
            assert(s.take(i + 1).last() == v@[i as int]@);
            assert(r@ == join_segs(s.take(i + 1)));
        }
        i = i + 1;
    }
    proof {
        assert(seq_views(v@).take(v@.len() as int) =~= seq_views(v@));
    }
    r
}

pub open spec fn join_segs(keys: Seq<Seq<char>>) -> Seq<char>
    decreases keys.len(),
{
    if keys.len() == 0 {
        Seq::empty()
    } else if keys.len() == 1 {
        keys[0]
    } else {
        join_segs(keys.drop_last()) + seq!['/'] + keys.last()
    }
}

} // verus!
