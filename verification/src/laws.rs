//! The stated laws of the tree engine, proved over the models that the
//! executable functions' contracts speak of.

use vstd::prelude::*;

use crate::node::{
    has_key, keys_of, seek_pos, wf_children, FileTreeNodeType, NodeModel, AUTO_EXPAND_LIMIT,
};
use crate::order::{lemma_lt_asym, lemma_lt_total, lemma_lt_trans, seq_str_lt};
use crate::scan::{
    BackupInfo, Config, DuplicateDetector, FileModel, ScanChange, ScanInfo, ScannedFile,
    ScannedRegistry, ToggledPaths, ToggledRegistry,
};
use crate::tree::{
    build_files, build_registry, finalize, root_insert, spec_build, FileTree, TreeModel,
};

verus! {

/// Building a tree twice from identical inputs yields identical trees: what
/// `FileTree::new` returns is a function of its inputs alone.
pub proof fn lemma_build_deterministic(
    t1: FileTree,
    t2: FileTree,
    scan: ScanInfo,
    config: Config,
    backup: Option<BackupInfo>,
    dd: DuplicateDetector,
)
    requires
        t1.model() == spec_build(scan, config, backup, dd),
        t2.model() == spec_build(scan, config, backup, dd),
    ensures
        t1.model() == t2.model(),
{
}

/// After storing `c` under `k`, the key resolves and yields `c`, and only
/// the entry at the resolved position differs from before.
pub proof fn lemma_with_child_resolves(m: NodeModel, k: Seq<char>, c: NodeModel)
    ensures
        has_key(keys_of(m.with_child(k, c).children), k),
        seek_pos(keys_of(m.with_child(k, c).children), k) == seek_pos(keys_of(m.children), k),
        m.with_child(k, c).child_at(k) == c,
{
    let ks = keys_of(m.children);
    let p = seek_pos(ks, k);
    crate::node::lemma_seek_pos_bounds(ks, k);
    lemma_lt_asym(k, k);
    if has_key(ks, k) {
        let ks2 = keys_of(m.children.update(p, (k, c)));
        assert(ks2 =~= ks.update(p, k));
        assert(ks2 =~= ks);
        assert(seek_pos(ks2, k) == p);
    } else {
        let ks2 = keys_of(m.children.insert(p, (k, c)));
        assert(ks2 =~= ks.insert(p, k));
        assert forall|j: int| 0 <= j < p implies seq_str_lt(ks2[j], k) by {
            assert(ks2[j] == ks[j]);
        }
        assert(ks2[p] == k);
        assert(!seq_str_lt(ks2[p], k));
        crate::node::lemma_seek_pos_char(ks2, k, p);
    }
}

/// Round-trip addressing: walking the tree by the very segments that were
/// inserted reaches a node carrying the inserted leaf status.
pub proof fn lemma_insert_round_trip(
    m: NodeModel,
    rem: Seq<Seq<char>>,
    successful: bool,
    duplicated: bool,
    change: ScanChange,
    file: Option<FileModel>,
)
    ensures
        ({
            let r = m.spec_insert(rem, successful, duplicated, change, file).node_at(rem);
            &&& r is Some
            &&& r->Some_0.successful == successful
            &&& r->Some_0.duplicated == duplicated
            &&& r->Some_0.change == change
            &&& r->Some_0.scanned_file == file
        }),
    decreases rem.len(),
{
    if rem.len() > 0 {
        let k = rem[0];
        let c = if has_key(keys_of(m.children), k) {
            m.child_at(k)
        } else {
            m.fresh_child(k)
        };
        let c1 = c.spec_insert(rem.skip(1), successful, duplicated, change, file);
        lemma_with_child_resolves(m, k, c1);
        lemma_insert_round_trip(c, rem.skip(1), successful, duplicated, change, file);
    }
}

/// Round-trip addressing through the whole tree: folding an entry's
/// segments into the top-level children leaves a tree in which those very
/// segments resolve to a node carrying the entry's leaf status.
pub proof fn lemma_tree_insert_round_trip(
    children: Seq<(Seq<char>, NodeModel)>,
    comps: Seq<Seq<char>>,
    node_type: FileTreeNodeType,
    successful: bool,
    duplicated: bool,
    change: ScanChange,
    file: Option<FileModel>,
)
    requires
        comps.len() > 0,
    ensures
        ({
            let t = TreeModel {
                children: root_insert(
                    children,
                    comps,
                    node_type,
                    successful,
                    duplicated,
                    change,
                    file,
                ),
            };
            let r = t.node_at(comps);
            &&& r is Some
            &&& r->Some_0.successful == successful
            &&& r->Some_0.duplicated == duplicated
            &&& r->Some_0.change == change
            &&& r->Some_0.scanned_file == file
        }),
{
    let m = NodeModel { children, ..NodeModel::default_model() };
    let k = comps[0];
    let c = if has_key(keys_of(children), k) {
        children[seek_pos(keys_of(children), k)].1
    } else {
        NodeModel::root_model(k, node_type)
    };
    let c1 = c.spec_insert(comps.skip(1), successful, duplicated, change, file);
    assert(root_insert(children, comps, node_type, successful, duplicated, change, file)
        == m.with_child(k, c1).children);
    lemma_with_child_resolves(m, k, c1);
    lemma_insert_round_trip(c, comps.skip(1), successful, duplicated, change, file);
}

/// Where the first inserted segment is new below `self`, every deeper node
/// is created by this very insertion, and the reached node's stored address
/// is the node's own address extended by the inserted segments. (A node
/// that already exists at the path keeps its stored address: the last write
/// wins on leaf status only.)
pub proof fn lemma_insert_fresh_keys(
    m: NodeModel,
    rem: Seq<Seq<char>>,
    successful: bool,
    duplicated: bool,
    change: ScanChange,
    file: Option<FileModel>,
)
    requires
        rem.len() == 0 || !has_key(keys_of(m.children), rem[0]),
    ensures
        ({
            let r = m.spec_insert(rem, successful, duplicated, change, file).node_at(rem);
            &&& r is Some
            &&& r->Some_0.keys == m.keys + rem
        }),
    decreases rem.len(),
{
    if rem.len() == 0 {
        assert(m.keys + rem =~= m.keys);
    } else {
        let k = rem[0];
        let c = m.fresh_child(k);
        let c1 = c.spec_insert(rem.skip(1), successful, duplicated, change, file);
        lemma_with_child_resolves(m, k, c1);
        assert(keys_of(c.children) =~= Seq::<Seq<char>>::empty());
        lemma_insert_fresh_keys(c, rem.skip(1), successful, duplicated, change, file);
        assert(c.keys + rem.skip(1) =~= m.keys + rem);
    }
}

/// The `expanded` flag at an address, taken as collapsed where the address
/// does not resolve.
pub open spec fn expanded_at(m: NodeModel, path: Seq<Seq<char>>) -> bool {
    match m.node_at(path) {
        Some(n) => n.expanded,
        None => false,
    }
}

/// A node created defensively by a toggle reports collapsed everywhere.
proof fn lemma_default_collapsed(path: Seq<Seq<char>>)
    ensures
        !expanded_at(NodeModel::default_model(), path),
{
    let d = NodeModel::default_model();
    if path.len() > 0 {
        assert(keys_of(d.children) =~= Seq::<Seq<char>>::empty());
        assert(!has_key(keys_of(d.children), path[0]));
    }
}

/// Toggle symmetry: toggling the same address twice returns its `expanded`
/// flag to the original value.
pub proof fn lemma_toggle_twice(m: NodeModel, path: Seq<Seq<char>>)
    ensures
        expanded_at(m.spec_toggle(path).spec_toggle(path), path) == expanded_at(m, path),
    decreases path.len(),
{
    if path.len() == 0 {
        assert(m.spec_toggle(path).spec_toggle(path).expanded == m.expanded);
    } else {
        let k = path[0];
        let rest = path.skip(1);
        let c0 = if has_key(keys_of(m.children), k) {
            m.child_at(k)
        } else {
            NodeModel::default_model()
        };
        let t1 = m.with_child(k, c0.spec_toggle(rest));
        lemma_with_child_resolves(m, k, c0.spec_toggle(rest));
        let c1 = c0.spec_toggle(rest);
        let t2 = t1.with_child(k, c1.spec_toggle(rest));
        lemma_with_child_resolves(t1, k, c1.spec_toggle(rest));
        assert(t1.spec_toggle(path) == t2);
        lemma_toggle_twice(c0, rest);
        if has_key(keys_of(m.children), k) {
            assert(expanded_at(m, path) == expanded_at(c0, rest));
        } else {
            lemma_default_collapsed(rest);
            assert(!expanded_at(m, path));
        }
    }
}

/// Idempotent ignore recompute: a second pass with the same configuration
/// changes nothing.
pub proof fn lemma_update_ignored_idempotent(
    m: NodeModel,
    game: Seq<char>,
    toggled_paths: ToggledPaths,
    toggled_registry: ToggledRegistry,
)
    ensures
        m.spec_update_ignored(game, toggled_paths, toggled_registry).spec_update_ignored(
            game,
            toggled_paths,
            toggled_registry,
        ) == m.spec_update_ignored(game, toggled_paths, toggled_registry),
    decreases m,
{
    let once = m.spec_update_ignored(game, toggled_paths, toggled_registry);
    let twice = once.spec_update_ignored(game, toggled_paths, toggled_registry);
    assert forall|i: int|
        0 <= i < twice.children.len() implies twice.children[i] == once.children[i] by {
        lemma_update_ignored_idempotent(m.children[i].1, game, toggled_paths, toggled_registry);
    }
    assert(twice.children =~= once.children);
    assert(twice =~= once);
}

/// Idempotent ignore recompute through the root dispatch: a second pass over
/// the whole tree with the same configuration changes nothing.
pub proof fn lemma_tree_update_ignored_idempotent(
    t: TreeModel,
    game: Seq<char>,
    toggled_paths: ToggledPaths,
    toggled_registry: ToggledRegistry,
)
    ensures
        t.spec_update_ignored_tree(game, toggled_paths, toggled_registry)
            .spec_update_ignored_tree(game, toggled_paths, toggled_registry)
            == t.spec_update_ignored_tree(game, toggled_paths, toggled_registry),
{
    let once = t.spec_update_ignored_tree(game, toggled_paths, toggled_registry);
    let twice = once.spec_update_ignored_tree(game, toggled_paths, toggled_registry);
    assert forall|i: int|
        0 <= i < twice.children.len() implies twice.children[i] == once.children[i] by {
        lemma_update_ignored_idempotent(t.children[i].1, game, toggled_paths, toggled_registry);
    }
    assert(twice.children =~= once.children);
    assert(twice =~= once);
}

/// Auto-expand threshold: after the auto-expand pass a node with fewer direct
/// children than the limit is expanded; a wider node keeps its prior flag.
pub proof fn lemma_auto_expand_threshold(m: NodeModel)
    ensures
        m.children.len() < AUTO_EXPAND_LIMIT as nat ==> m.spec_expand_short().expanded,
        m.children.len() >= AUTO_EXPAND_LIMIT as nat ==> m.spec_expand_short().expanded
            == m.expanded,
{
}

/// Visibility: a node is showable exactly when some address in its subtree
/// resolves to a leaf.
pub proof fn lemma_showable_iff_leaf(m: NodeModel)
    requires
        m.wf(),
    ensures
        m.spec_showable() <==> exists|p: Seq<Seq<char>>|
            m.node_at(p) is Some && m.node_at(p)->Some_0.children.len() == 0,
    decreases m,
{
    if m.children.len() == 0 {
        let p = Seq::<Seq<char>>::empty();
        assert(m.node_at(p) is Some && m.node_at(p)->Some_0.children.len() == 0);
    } else {
        if m.spec_showable() {
            let i = choose|i: int|
                0 <= i < m.children.len() && m.children[i].1.spec_showable();
            let k = m.children[i].0;
            lemma_seek_resolves_sorted(m, i);
            let child = m.children[i].1;
            lemma_showable_iff_leaf(child);
            let p0 = choose|p: Seq<Seq<char>>|
                child.node_at(p) is Some && child.node_at(p)->Some_0.children.len() == 0;
            let p = seq![k] + p0;
            assert(p[0] == k);
            assert(p.skip(1) =~= p0);
            assert(m.node_at(p) == child.node_at(p0));
            assert(m.node_at(p) is Some && m.node_at(p)->Some_0.children.len() == 0);
        }
        if exists|p: Seq<Seq<char>>|
            m.node_at(p) is Some && m.node_at(p)->Some_0.children.len() == 0 {
            let p = choose|p: Seq<Seq<char>>|
                m.node_at(p) is Some && m.node_at(p)->Some_0.children.len() == 0;
            assert(p.len() > 0);
            let q = seek_pos(keys_of(m.children), p[0]);
            assert(has_key(keys_of(m.children), p[0]));
            crate::node::lemma_seek_pos_bounds(keys_of(m.children), p[0]);
            let child = m.children[q].1;
            assert(child.node_at(p.skip(1)) is Some
                && child.node_at(p.skip(1))->Some_0.children.len() == 0);
            lemma_showable_iff_leaf(child);
            assert(child.spec_showable());
            assert(m.spec_showable());
        }
    }
}

/// Storing a well-formed child keeps a child sequence sorted and
/// well-formed, whether the key replaces an entry or is inserted anew.
pub proof fn lemma_store_child_wf(
    children: Seq<(Seq<char>, NodeModel)>,
    k: Seq<char>,
    c: NodeModel,
)
    requires
        wf_children(children),
        c.wf(),
    ensures
        ({
            let p = seek_pos(keys_of(children), k);
            let r = if has_key(keys_of(children), k) {
                children.update(p, (k, c))
            } else {
                children.insert(p, (k, c))
            };
            wf_children(r)
        }),
{
    let ks = keys_of(children);
    let p = seek_pos(ks, k);
    crate::node::lemma_seek_pos_bounds(ks, k);
    if has_key(ks, k) {
        let r = children.update(p, (k, c));
        assert forall|i: int, j: int|
            0 <= i < j < r.len() implies seq_str_lt(r[i].0, r[j].0) by {
            assert(r[i].0 == children[i].0);
            assert(r[j].0 == children[j].0);
        }
    } else {
        let r = children.insert(p, (k, c));
        if p < ks.len() {
            lemma_lt_total(k, ks[p]);
            lemma_lt_asym(ks[p], k);
        }
        assert forall|i: int, j: int|
            0 <= i < j < r.len() implies seq_str_lt(r[i].0, r[j].0) by {
            if j < p {
                assert(r[i].0 == children[i].0 && r[j].0 == children[j].0);
                assert(seq_str_lt(children[i].0, children[j].0));
            } else if j == p {
                assert(r[i].0 == children[i].0 && r[j].0 == k);
                assert(ks[i] == children[i].0);
                assert(seq_str_lt(ks[i], k));
            } else if i < p {
                assert(r[i].0 == children[i].0 && r[j].0 == children[j - 1].0);
                if i == j - 1 {
                    assert(ks[i] == children[i].0);
                    assert(seq_str_lt(ks[i], k));
                    assert(ks[p] == children[p as int].0);
                    assert(seq_str_lt(k, ks[p]));
                    lemma_lt_trans(children[i].0, k, children[j - 1].0);
                } else {
                    assert(seq_str_lt(children[i].0, children[j - 1].0));
                }
            } else if i == p {
                assert(r[i].0 == k && r[j].0 == children[j - 1].0);
                assert(ks[p] == children[p as int].0);
                assert(seq_str_lt(k, ks[p]));
                if j - 1 > p {
                    assert(seq_str_lt(children[p as int].0, children[j - 1].0));
                    lemma_lt_trans(k, children[p as int].0, children[j - 1].0);
                }
            } else {
                assert(r[i].0 == children[i - 1].0 && r[j].0 == children[j - 1].0);
                assert(seq_str_lt(children[i - 1].0, children[j - 1].0));
            }
        }
        assert forall|i: int| 0 <= i < r.len() implies r[i].1.wf() by {
            if i < p {
                assert(r[i].1 == children[i].1);
            } else if i > p {
                assert(r[i].1 == children[i - 1].1);
            }
        }
    }
}

/// A freshly created node is well-formed: it has no children.
proof fn lemma_fresh_wf(m: NodeModel)
    requires
        m.children.len() == 0,
    ensures
        m.wf(),
{
}

/// Insertion keeps a node well-formed.
pub proof fn lemma_insert_wf(
    m: NodeModel,
    rem: Seq<Seq<char>>,
    successful: bool,
    duplicated: bool,
    change: ScanChange,
    file: Option<FileModel>,
)
    requires
        m.wf(),
    ensures
        m.spec_insert(rem, successful, duplicated, change, file).wf(),
    decreases rem.len(),
{
    if rem.len() == 0 {
        let r = m.leaf_updated(successful, duplicated, change, file);
        assert(r.children == m.children);
    } else {
        let k = rem[0];
        let c = if has_key(keys_of(m.children), k) {
            crate::node::lemma_seek_pos_bounds(keys_of(m.children), k);
            m.child_at(k)
        } else {
            lemma_fresh_wf(m.fresh_child(k));
            m.fresh_child(k)
        };
        assert(c.wf());
        lemma_insert_wf(c, rem.skip(1), successful, duplicated, change, file);
        lemma_store_child_wf(m.children, k, c.spec_insert(
            rem.skip(1),
            successful,
            duplicated,
            change,
            file,
        ));
    }
}

/// Toggling keeps a node well-formed.
pub proof fn lemma_toggle_wf(m: NodeModel, rem: Seq<Seq<char>>)
    requires
        m.wf(),
    ensures
        m.spec_toggle(rem).wf(),
    decreases rem.len(),
{
    if rem.len() == 0 {
        assert(m.spec_toggle(rem).children == m.children);
    } else {
        let k = rem[0];
        let c = if has_key(keys_of(m.children), k) {
            crate::node::lemma_seek_pos_bounds(keys_of(m.children), k);
            m.child_at(k)
        } else {
            lemma_fresh_wf(NodeModel::default_model());
            NodeModel::default_model()
        };
        assert(c.wf());
        lemma_toggle_wf(c, rem.skip(1));
        lemma_store_child_wf(m.children, k, c.spec_toggle(rem.skip(1)));
    }
}

/// The auto-expand pass keeps a node well-formed: it touches no key.
pub proof fn lemma_expand_short_wf(m: NodeModel)
    requires
        m.wf(),
    ensures
        m.spec_expand_short().wf(),
    decreases m,
{
    let r = m.spec_expand_short();
    assert forall|i: int, j: int|
        0 <= i < j < r.children.len() implies seq_str_lt(r.children[i].0, r.children[j].0) by {
        assert(r.children[i].0 == m.children[i].0);
        assert(r.children[j].0 == m.children[j].0);
    }
    assert forall|i: int| 0 <= i < r.children.len() implies r.children[i].1.wf() by {
        lemma_expand_short_wf(m.children[i].1);
    }
}

/// Ignore recomputation keeps a node well-formed: it touches no key.
pub proof fn lemma_update_ignored_wf(
    m: NodeModel,
    game: Seq<char>,
    toggled_paths: ToggledPaths,
    toggled_registry: ToggledRegistry,
)
    requires
        m.wf(),
    ensures
        m.spec_update_ignored(game, toggled_paths, toggled_registry).wf(),
    decreases m,
{
    let r = m.spec_update_ignored(game, toggled_paths, toggled_registry);
    assert forall|i: int, j: int|
        0 <= i < j < r.children.len() implies seq_str_lt(r.children[i].0, r.children[j].0) by {
        assert(r.children[i].0 == m.children[i].0);
        assert(r.children[j].0 == m.children[j].0);
    }
    assert forall|i: int| 0 <= i < r.children.len() implies r.children[i].1.wf() by {
        lemma_update_ignored_wf(m.children[i].1, game, toggled_paths, toggled_registry);
    }
}

/// Folding one entry into the top level keeps the children well-formed.
pub proof fn lemma_root_insert_wf(
    children: Seq<(Seq<char>, NodeModel)>,
    comps: Seq<Seq<char>>,
    node_type: FileTreeNodeType,
    successful: bool,
    duplicated: bool,
    change: ScanChange,
    file: Option<FileModel>,
)
    requires
        wf_children(children),
        comps.len() > 0,
    ensures
        wf_children(
            root_insert(children, comps, node_type, successful, duplicated, change, file),
        ),
{
    let k = comps[0];
    let c = if has_key(keys_of(children), k) {
        crate::node::lemma_seek_pos_bounds(keys_of(children), k);
        children[seek_pos(keys_of(children), k)].1
    } else {
        lemma_fresh_wf(NodeModel::root_model(k, node_type));
        NodeModel::root_model(k, node_type)
    };
    assert(c.wf());
    lemma_insert_wf(c, comps.skip(1), successful, duplicated, change, file);
    lemma_store_child_wf(children, k, c.spec_insert(
        comps.skip(1),
        successful,
        duplicated,
        change,
        file,
    ));
}

/// The file fold keeps the top-level children well-formed.
pub proof fn lemma_build_files_wf(
    files: Seq<ScannedFile>,
    restoring: bool,
    backup: Option<BackupInfo>,
    dd: DuplicateDetector,
)
    ensures
        wf_children(build_files(files, restoring, backup, dd)),
    decreases files.len(),
{
    if files.len() > 0 {
        lemma_build_files_wf(files.drop_last(), restoring, backup, dd);
        let prev = build_files(files.drop_last(), restoring, backup, dd);
        let item = files.last();
        let comps = crate::path_key::spec_split(item.spec_readable(restoring), '/');
        if comps.len() > 0 {
            let successful = match backup {
                Some(b) => !b.spec_file_failed(item.path.raw@),
                None => true,
            };
            lemma_root_insert_wf(
                prev,
                comps,
                FileTreeNodeType::File,
                successful,
                dd.spec_file_duplicated(item.path.raw@),
                item.change,
                Some(item.model()),
            );
        }
    }
}

/// The registry fold keeps the top-level children well-formed.
pub proof fn lemma_build_registry_wf(
    children: Seq<(Seq<char>, NodeModel)>,
    entries: Seq<ScannedRegistry>,
    backup: Option<BackupInfo>,
    dd: DuplicateDetector,
)
    requires
        wf_children(children),
    ensures
        wf_children(build_registry(children, entries, backup, dd)),
    decreases entries.len(),
{
    if entries.len() > 0 {
        lemma_build_registry_wf(children, entries.drop_last(), backup, dd);
        let prev = build_registry(children, entries.drop_last(), backup, dd);
        let item = entries.last();
        let comps = crate::path_key::spec_split(item.path.raw@, '\\');
        if comps.len() > 0 {
            let successful = match backup {
                Some(b) => !b.spec_registry_failed(item.path.raw@),
                None => true,
            };
            lemma_root_insert_wf(
                prev,
                comps,
                FileTreeNodeType::Registry,
                successful,
                dd.spec_registry_duplicated(item.path.raw@),
                item.change,
                None,
            );
        }
    }
}

/// A freshly built tree is well-formed: its children are strictly sorted by
/// segment, recursively.
pub proof fn lemma_build_wf(
    scan: ScanInfo,
    config: Config,
    backup: Option<BackupInfo>,
    dd: DuplicateDetector,
)
    ensures
        wf_children(spec_build(scan, config, backup, dd).children),
{
    lemma_build_files_wf(scan.found_files@, scan.restoring, backup, dd);
    let c1 = build_files(scan.found_files@, scan.restoring, backup, dd);
    lemma_build_registry_wf(c1, scan.found_registry_keys@, backup, dd);
    let c2 = build_registry(c1, scan.found_registry_keys@, backup, dd);
    let r = finalize(
        c2,
        scan.game_name@,
        config.backup.toggled_paths,
        config.backup.toggled_registry,
    );
    assert forall|i: int, j: int|
        0 <= i < j < r.len() implies seq_str_lt(r[i].0, r[j].0) by {
        assert(r[i].0 == c2[i].0);
        assert(r[j].0 == c2[j].0);
    }
    assert forall|i: int| 0 <= i < r.len() implies r[i].1.wf() by {
        lemma_expand_short_wf(c2[i].1);
        lemma_update_ignored_wf(
            c2[i].1.spec_expand_short(),
            scan.game_name@,
            config.backup.toggled_paths,
            config.backup.toggled_registry,
        );
    }
}

/// The `expanded` flag at an address in the whole tree, taken as collapsed
/// where the address does not resolve.
pub open spec fn tree_expanded_at(t: TreeModel, path: Seq<Seq<char>>) -> bool {
    match t.node_at(path) {
        Some(n) => n.expanded,
        None => false,
    }
}

/// Toggle symmetry through the root dispatch: toggling the same address
/// twice returns its `expanded` flag to the original value.
pub proof fn lemma_tree_toggle_twice(t: TreeModel, path: Seq<Seq<char>>)
    ensures
        tree_expanded_at(t.spec_toggle_tree(path).spec_toggle_tree(path), path)
            == tree_expanded_at(t, path),
{
    if path.len() > 0 && has_key(keys_of(t.children), path[0]) {
        let k = path[0];
        let rest = path.skip(1);
        let ks = keys_of(t.children);
        let p = seek_pos(ks, k);
        crate::node::lemma_seek_pos_bounds(ks, k);
        let c = t.children[p].1;
        let t1 = t.spec_toggle_tree(path);
        assert(keys_of(t1.children) =~= ks);
        assert(t1.children[p].1 == c.spec_toggle(rest));
        let t2 = t1.spec_toggle_tree(path);
        assert(keys_of(t2.children) =~= ks);
        assert(t2.children[p].1 == c.spec_toggle(rest).spec_toggle(rest));
        lemma_toggle_twice(c, rest);
    }
}

/// A tree built from zero entries shows nothing: it has no children and
/// contributes no rows.
pub proof fn lemma_empty_scan_shows_nothing(
    scan: ScanInfo,
    config: Config,
    backup: Option<BackupInfo>,
    dd: DuplicateDetector,
    restoring: bool,
)
    requires
        scan.found_files@.len() == 0,
        scan.found_registry_keys@.len() == 0,
    ensures
        spec_build(scan, config, backup, dd).children.len() == 0,
        crate::rows::spec_tree_rows(spec_build(scan, config, backup, dd), restoring)
            == Seq::<crate::rows::RowModel>::empty(),
{
}

/// In a well-formed node, each child is found again under its own key.
proof fn lemma_seek_resolves_sorted(m: NodeModel, i: int)
    requires
        m.wf(),
        0 <= i < m.children.len(),
    ensures
        has_key(keys_of(m.children), m.children[i].0),
        seek_pos(keys_of(m.children), m.children[i].0) == i,
        m.child_at(m.children[i].0) == m.children[i].1,
{
    let ks = keys_of(m.children);
    let k = m.children[i].0;
    lemma_lt_asym(k, k);
    assert forall|j: int| 0 <= j < i implies seq_str_lt(ks[j], k) by {
        assert(seq_str_lt(m.children[j].0, m.children[i].0));
    }
    assert(ks[i] == k);
    assert(!seq_str_lt(ks[i], k));
    crate::node::lemma_seek_pos_char(ks, k, i);
}

} // verus!

