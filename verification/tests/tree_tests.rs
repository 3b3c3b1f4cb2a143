use file_tree::node::{FileTreeNode, FileTreeNodePath, FileTreeNodeType};
use file_tree::rows::TreeRow;
use file_tree::scan::{
    BackupFilter, BackupInfo, Config, DuplicateDetector, RegistryItem, ScanChange, ScanInfo,
    ScannedFile, ScannedRegistry, StrictPath, ToggledPaths, ToggledRegistry,
};
use file_tree::tree::FileTree;

fn plain_file(path: &str, change: ScanChange) -> ScannedFile {
    ScannedFile {
        path: StrictPath::new(path.to_string()),
        redirected: None,
        change,
    }
}

fn empty_config() -> Config {
    Config {
        backup: BackupFilter {
            toggled_paths: ToggledPaths { entries: Vec::new() },
            toggled_registry: ToggledRegistry { entries: Vec::new() },
        },
    }
}

fn empty_detector() -> DuplicateDetector {
    DuplicateDetector {
        file_paths: Vec::new(),
        registry_paths: Vec::new(),
    }
}

fn scan_of(files: Vec<ScannedFile>, registry: Vec<ScannedRegistry>) -> ScanInfo {
    ScanInfo {
        game_name: "game1".to_string(),
        found_files: files,
        found_registry_keys: registry,
        restoring: false,
    }
}

fn build_two_profiles() -> FileTree {
    let scan = scan_of(
        vec![
            plain_file("save/profile1.dat", ScanChange::New),
            plain_file("save/profile2.dat", ScanChange::New),
        ],
        Vec::new(),
    );
    FileTree::new(scan, &empty_config(), &None, &empty_detector())
}

#[test]
fn two_profiles_scenario() {
    let tree = build_two_profiles();
    let rows: Vec<TreeRow> = tree.view(false);
    assert_eq!(rows.len(), 3);
    assert_eq!(rows[0].label, "save");
    assert!(!rows[0].is_leaf);
    assert!(rows[0].expanded);
    assert_eq!(rows[0].depth, 0);
    assert_eq!(rows[1].label, "profile1.dat");
    assert!(rows[1].is_leaf);
    assert_eq!(rows[1].depth, 1);
    assert_eq!(rows[1].change, ScanChange::New);
    assert!(rows[1].successful);
    assert!(!rows[1].ignored);
    assert!(!rows[1].duplicated);
    assert_eq!(rows[1].keys, vec!["save".to_string(), "profile1.dat".to_string()]);
    assert_eq!(rows[2].label, "profile2.dat");
    assert!(rows[2].is_leaf);
    assert!(rows[2].successful);
}

#[test]
fn build_is_deterministic() {
    let t1 = build_two_profiles();
    let t2 = build_two_profiles();
    assert_eq!(t1.view(false), t2.view(false));
}

#[test]
fn failed_file_marks_only_that_leaf() {
    let scan = scan_of(
        vec![
            plain_file("save/profile1.dat", ScanChange::New),
            plain_file("save/profile2.dat", ScanChange::New),
        ],
        Vec::new(),
    );
    let backup = Some(BackupInfo {
        failed_files: vec![StrictPath::new("save/profile1.dat".to_string())],
        failed_registry: Vec::new(),
    });
    let tree = FileTree::new(scan, &empty_config(), &backup, &empty_detector());
    let rows = tree.view(false);
    assert_eq!(rows.len(), 3);
    assert_eq!(rows[1].label, "profile1.dat");
    assert!(!rows[1].successful);
    assert_eq!(rows[2].label, "profile2.dat");
    assert!(rows[2].successful);
}

#[test]
fn duplicated_file_is_flagged() {
    let scan = scan_of(vec![plain_file("save/slot.dat", ScanChange::Same)], Vec::new());
    let detector = DuplicateDetector {
        file_paths: vec![StrictPath::new("save/slot.dat".to_string())],
        registry_paths: Vec::new(),
    };
    let tree = FileTree::new(scan, &empty_config(), &None, &detector);
    let rows = tree.view(false);
    assert_eq!(rows.len(), 2);
    assert!(rows[1].duplicated);
    assert!(!rows[0].duplicated);
}

#[test]
fn ignored_leaf_follows_configuration() {
    let scan = scan_of(vec![plain_file("save/slot.dat", ScanChange::Same)], Vec::new());
    let config = Config {
        backup: BackupFilter {
            toggled_paths: ToggledPaths {
                entries: vec![(
                    "game1".to_string(),
                    StrictPath::new("save/slot.dat".to_string()),
                )],
            },
            toggled_registry: ToggledRegistry { entries: Vec::new() },
        },
    };
    let tree = FileTree::new(scan, &config, &None, &empty_detector());
    let rows = tree.view(false);
    assert_eq!(rows.len(), 2);
    assert!(rows[1].ignored);
    assert!(!rows[0].ignored);
}

#[test]
fn ignore_recompute_is_idempotent() {
    let mut tree = build_two_profiles();
    let paths = ToggledPaths {
        entries: vec![(
            "game1".to_string(),
            StrictPath::new("save/profile1.dat".to_string()),
        )],
    };
    let registry = ToggledRegistry { entries: Vec::new() };
    tree.update_ignored("game1", &paths, &registry);
    let once = tree.view(false);
    assert!(once[1].ignored);
    assert!(!once[2].ignored);
    tree.update_ignored("game1", &paths, &registry);
    assert_eq!(tree.view(false), once);
}

#[test]
fn toggle_twice_restores_expansion() {
    let mut tree = build_two_profiles();
    let before = tree.view(false);
    let keys = vec!["save".to_string()];
    tree.expand_or_collapse_keys(&keys);
    let collapsed = tree.view(false);
    assert_eq!(collapsed.len(), 1);
    assert!(!collapsed[0].expanded);
    tree.expand_or_collapse_keys(&keys);
    assert_eq!(tree.view(false), before);
}

#[test]
fn toggle_on_unknown_root_is_a_no_op() {
    let mut tree = build_two_profiles();
    let before = tree.view(false);
    tree.expand_or_collapse_keys(&vec!["other".to_string()]);
    assert_eq!(tree.view(false), before);
    tree.expand_or_collapse_keys(&Vec::new());
    assert_eq!(tree.view(false), before);
}

#[test]
fn auto_expand_below_threshold() {
    let mut files = Vec::new();
    for i in 0..29 {
        files.push(plain_file(&format!("root/entry{:02}", i), ScanChange::Same));
    }
    let tree = FileTree::new(scan_of(files, Vec::new()), &empty_config(), &None, &empty_detector());
    let rows = tree.view(false);
    assert_eq!(rows.len(), 30);
    assert!(rows[0].expanded);
}

#[test]
fn no_auto_expand_at_or_above_threshold() {
    let mut files = Vec::new();
    for i in 0..31 {
        files.push(plain_file(&format!("root/entry{:02}", i), ScanChange::Same));
    }
    let tree = FileTree::new(scan_of(files, Vec::new()), &empty_config(), &None, &empty_detector());
    let rows = tree.view(false);
    assert_eq!(rows.len(), 1);
    assert!(!rows[0].expanded);
}

#[test]
fn single_child_chain_is_compressed() {
    let scan = scan_of(vec![plain_file("save/sub/file.dat", ScanChange::Same)], Vec::new());
    let tree = FileTree::new(scan, &empty_config(), &None, &empty_detector());
    let rows = tree.view(false);
    assert_eq!(rows.len(), 2);
    assert_eq!(rows[0].label, "save/sub");
    assert!(!rows[0].is_leaf);
    assert_eq!(rows[0].keys, vec!["save".to_string(), "sub".to_string()]);
    assert_eq!(rows[1].label, "file.dat");
    assert!(rows[1].is_leaf);
    assert_eq!(
        rows[1].keys,
        vec!["save".to_string(), "sub".to_string(), "file.dat".to_string()]
    );
}

#[test]
fn registry_entries_build_their_own_subtree() {
    let scan = scan_of(
        Vec::new(),
        vec![ScannedRegistry {
            path: RegistryItem::new("HKEY_CURRENT_USER\\Software\\Game".to_string()),
            change: ScanChange::Different,
        }],
    );
    let tree = FileTree::new(scan, &empty_config(), &None, &empty_detector());
    let rows = tree.view(false);
    assert_eq!(rows.len(), 2);
    assert_eq!(rows[0].label, "HKEY_CURRENT_USER/Software");
    assert_eq!(rows[1].label, "Game");
    assert!(rows[1].is_leaf);
    assert_eq!(rows[1].change, ScanChange::Different);
}

#[test]
fn registry_leaf_follows_ignore_configuration() {
    let scan = scan_of(
        Vec::new(),
        vec![ScannedRegistry {
            path: RegistryItem::new("HKEY_CURRENT_USER\\Software\\Game".to_string()),
            change: ScanChange::Same,
        }],
    );
    let config = Config {
        backup: BackupFilter {
            toggled_paths: ToggledPaths { entries: Vec::new() },
            toggled_registry: ToggledRegistry {
                entries: vec![(
                    "game1".to_string(),
                    RegistryItem::new("HKEY_CURRENT_USER/Software/Game".to_string()),
                )],
            },
        },
    };
    let tree = FileTree::new(scan, &config, &None, &empty_detector());
    let rows = tree.view(false);
    assert_eq!(rows.len(), 2);
    assert!(rows[1].ignored);
}

#[test]
fn only_nodes_with_a_path_carry_an_ignore_toggle() {
    let tree = build_two_profiles();
    let rows = tree.view(false);
    assert!(!rows[0].has_ignore_toggle);
    assert!(rows[1].has_ignore_toggle);
    assert!(rows[2].has_ignore_toggle);
}

#[test]
fn empty_scan_shows_nothing() {
    let tree = FileTree::new(scan_of(Vec::new(), Vec::new()), &empty_config(), &None, &empty_detector());
    assert_eq!(tree.view(false).len(), 0);
}

#[test]
fn children_come_out_sorted_regardless_of_insert_order() {
    let scan = scan_of(
        vec![
            plain_file("save/zeta.dat", ScanChange::Same),
            plain_file("save/alpha.dat", ScanChange::Same),
            plain_file("save/mid.dat", ScanChange::Same),
        ],
        Vec::new(),
    );
    let tree = FileTree::new(scan, &empty_config(), &None, &empty_detector());
    let rows = tree.view(false);
    assert_eq!(rows.len(), 4);
    assert_eq!(rows[1].label, "alpha.dat");
    assert_eq!(rows[2].label, "mid.dat");
    assert_eq!(rows[3].label, "zeta.dat");
}

#[test]
fn last_write_wins_on_duplicate_paths() {
    let scan = scan_of(
        vec![
            plain_file("save/slot.dat", ScanChange::Same),
            plain_file("save/slot.dat", ScanChange::Different),
        ],
        Vec::new(),
    );
    let tree = FileTree::new(scan, &empty_config(), &None, &empty_detector());
    let rows = tree.view(false);
    assert_eq!(rows.len(), 2);
    assert_eq!(rows[1].change, ScanChange::Different);
}

#[test]
fn toggle_reaches_nested_nodes() {
    let mut tree = build_two_profiles();
    let keys = vec!["save".to_string(), "profile1.dat".to_string()];
    let before = tree.view(false);
    assert!(before[1].expanded);
    tree.expand_or_collapse_keys(&keys);
    let after = tree.view(false);
    assert!(!after[1].expanded);
    tree.expand_or_collapse_keys(&keys);
    assert_eq!(tree.view(false), before);
}

#[test]
fn leaves_and_populated_nodes_are_showable() {
    let tree = build_two_profiles();
    assert_eq!(tree.nodes.len(), 1);
    let root = &tree.nodes[0].1;
    assert!(root.anything_showable());
    assert_eq!(root.nodes.len(), 2);
    assert!(root.nodes[0].1.anything_showable());
}

#[test]
fn node_insert_builds_addressable_children() {
    let mut node = FileTreeNode::new(vec!["root".to_string()], None, FileTreeNodeType::File);
    assert!(node.anything_showable());
    let keys = vec!["root".to_string(), "a".to_string(), "b.dat".to_string()];
    node.insert_keys(&keys, 1, true, false, ScanChange::New, None);
    assert_eq!(node.nodes.len(), 1);
    assert_eq!(node.nodes[0].0, "a");
    let child = &node.nodes[0].1;
    assert_eq!(child.keys, vec!["root".to_string(), "a".to_string()]);
    match &child.path {
        Some(FileTreeNodePath::File(p)) => assert_eq!(p.raw, "root/a"),
        other => panic!("unexpected path {:?}", other),
    }
    assert_eq!(child.nodes[0].0, "b.dat");
    assert_eq!(child.nodes[0].1.change, ScanChange::New);
    assert!(child.nodes[0].1.successful);
    assert!(!child.expanded);
    let mut node2 = node;
    node2.expand_short();
    assert!(node2.expanded);
    assert!(node2.nodes[0].1.expanded);
}

#[test]
fn redirected_file_uses_restore_rendering() {
    let scan = ScanInfo {
        game_name: "game1".to_string(),
        found_files: vec![ScannedFile {
            path: StrictPath::new("orig/file.dat".to_string()),
            redirected: Some(StrictPath::new("moved/file.dat".to_string())),
            change: ScanChange::Same,
        }],
        found_registry_keys: Vec::new(),
        restoring: true,
    };
    let tree = FileTree::new(scan, &empty_config(), &None, &empty_detector());
    let rows = tree.view(true);
    assert_eq!(rows.len(), 2);
    assert_eq!(rows[0].label, "moved");
    assert_eq!(rows[1].label, "file.dat");
    assert_eq!(rows[1].redirected, Some("orig/file.dat".to_string()));
    assert_eq!(rows[0].redirected, None);
}

#[test]
fn redirected_badge_points_forward_when_backing_up() {
    let scan = ScanInfo {
        game_name: "game1".to_string(),
        found_files: vec![ScannedFile {
            path: StrictPath::new("orig/file.dat".to_string()),
            redirected: Some(StrictPath::new("moved/file.dat".to_string())),
            change: ScanChange::Same,
        }],
        found_registry_keys: Vec::new(),
        restoring: false,
    };
    let tree = FileTree::new(scan, &empty_config(), &None, &empty_detector());
    let rows = tree.view(false);
    assert_eq!(rows.len(), 2);
    assert_eq!(rows[0].label, "orig");
    assert_eq!(rows[1].redirected, Some("moved/file.dat".to_string()));
}

#[test]
fn unredirected_rows_carry_no_redirected_badge() {
    let tree = build_two_profiles();
    for row in tree.view(false) {
        assert_eq!(row.redirected, None);
    }
}

#[test]
fn build_twice_from_cloned_inputs_is_identical() {
    let scan = scan_of(
        vec![
            plain_file("save/profile1.dat", ScanChange::New),
            plain_file("save/profile2.dat", ScanChange::Different),
        ],
        vec![ScannedRegistry {
            path: RegistryItem::new("HKEY_CURRENT_USER\\Software\\Game".to_string()),
            change: ScanChange::Same,
        }],
    );
    let config = empty_config();
    let detector = empty_detector();
    let backup = Some(BackupInfo {
        failed_files: vec![StrictPath::new("save/profile2.dat".to_string())],
        failed_registry: Vec::new(),
    });
    let t1 = FileTree::new(scan.clone(), &config.clone(), &backup.clone(), &detector.clone());
    let t2 = FileTree::new(scan, &config, &backup, &detector);
    assert_eq!(t1.view(false), t2.view(false));
    assert_eq!(t1.view(true), t2.view(true));
}
