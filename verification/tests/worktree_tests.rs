use worktree::content::Snapshot;
use worktree::entry::WtError;
use worktree::scan::{ChildMeta, RootMeta, Scanner};
use worktree::ignore_rules::{decide, MatchKind};
use worktree::search::{char_bag_of, match_paths};
use worktree::tree::Worktree;

fn child(name: &str, ino: u64, is_dir: bool) -> ChildMeta {
    ChildMeta { name: name.to_string(), ino, is_dir, is_symlink: false }
}

fn pump(tree: &mut Worktree, scanner: &mut Scanner, listings: &[(&str, Vec<ChildMeta>)]) {
    while let Some(job) = scanner.take_job() {
        let rel = job.rel_path.clone();
        let mut listing: Vec<ChildMeta> = Vec::new();
        for (path, children) in listings {
            if *path == rel {
                for c in children {
                    listing.push(ChildMeta {
                        name: c.name.clone(),
                        ino: c.ino,
                        is_dir: c.is_dir,
                        is_symlink: c.is_symlink,
                    });
                }
            }
        }
        scanner.complete_job(tree, job, &listing);
    }
}

fn build_sample_tree() -> Worktree {
    let mut tree = Worktree::new(1, "/fixtures-zzz/root_link".to_string());
    let mut scanner = tree.begin_scan(RootMeta { ino: 1, is_dir: true, is_symlink: true });
    let listings = vec![
        (
            "root_link",
            vec![child("apple", 2, false), child("banana", 3, true), child("fennel", 4, true)],
        ),
        ("root_link/banana", vec![child("carrot", 5, true)]),
        ("root_link/banana/carrot", vec![child("date", 6, false), child("endive", 7, false)]),
        ("root_link/fennel", vec![child("grape", 8, false)]),
    ];
    pump(&mut tree, &mut scanner, &listings);
    scanner.finish(&mut tree).unwrap();
    tree
}

#[test]
fn test_populate_and_search() {
    let tree = build_sample_tree();
    assert_eq!(tree.file_count(), 4);
    let results: Vec<String> = match_paths(&vec![&tree], "bna", false, false, 10)
        .iter()
        .map(|result| tree.entry_path(result.entry_id).unwrap())
        .collect();
    assert_eq!(
        results,
        vec![
            "root_link/banana/carrot/date".to_string(),
            "root_link/banana/carrot/endive".to_string(),
        ]
    );
}

#[test]
fn test_save_file() {
    let mut tree = Worktree::new(1, "/fixtures-zzz/save-root".to_string());
    let mut scanner = tree.begin_scan(RootMeta { ino: 1, is_dir: true, is_symlink: false });
    let listings = vec![("save-root", vec![child("file1", 2, false)])];
    pump(&mut tree, &mut scanner, &listings);
    scanner.finish(&mut tree).unwrap();

    let entry = tree.files().next().unwrap();
    assert!(entry.path.ends_with("file1"));
    let file_id = entry.entry_id;

    let buffer_text = "a line of text.\n".repeat(10 * 1024);
    let snapshot = Snapshot::from_text(buffer_text.clone());
    let plan = tree.save(file_id, &snapshot).unwrap();
    assert_eq!(plan.abs_path, "/fixtures-zzz/save-root/file1");
    assert_eq!(plan.buffer_size, 10 * 1024);

    // The application writes the snapshot's chunks in order; the bytes on
    // disk are their concatenation, read back verbatim on the next load.
    let written = snapshot.to_text();
    tree.insert_history(file_id, written);
    let history = tree.load_history(file_id).unwrap();
    assert_eq!(history.base_text, buffer_text);
}

#[test]
fn test_rescan() {
    let mut tree = Worktree::new(1, "/fixtures-zzz/rescan-root".to_string());
    let mut scanner = tree.begin_scan(RootMeta { ino: 1, is_dir: true, is_symlink: false });
    let listings = vec![
        ("rescan-root", vec![child("dir1", 2, true), child("dir2", 3, true)]),
        ("rescan-root/dir1", vec![child("file", 4, false)]),
    ];
    pump(&mut tree, &mut scanner, &listings);
    scanner.finish(&mut tree).unwrap();

    let file_entry = tree
        .entry_for_path(&vec!["dir1".to_string(), "file".to_string()])
        .unwrap();
    assert_eq!(
        tree.abs_entry_path(file_entry).unwrap(),
        format!("{}/{}", tree.path(), "dir1/file")
    );

    // The file moves on disk; a rescan picks it up under its new parent,
    // with the same identity.
    let mut scanner = tree.begin_scan(RootMeta { ino: 1, is_dir: true, is_symlink: false });
    let listings = vec![
        ("rescan-root", vec![child("dir1", 2, true), child("dir2", 3, true)]),
        ("rescan-root/dir2", vec![child("file", 4, false)]),
    ];
    pump(&mut tree, &mut scanner, &listings);
    scanner.finish(&mut tree).unwrap();

    assert_eq!(
        tree.abs_entry_path(file_entry).unwrap(),
        format!("{}/{}", tree.path(), "dir2/file")
    );
}

#[test]
fn referential_integrity_of_child_lists() {
    let tree = build_sample_tree();
    for dir_id in [1u64, 3, 4, 5] {
        let children: Vec<u64> = match tree.lookup(dir_id).unwrap() {
            worktree::entry::Entry::Dir { children, .. } => children.clone(),
            _ => panic!("expected a directory"),
        };
        for c in children {
            let e = tree.lookup(c).unwrap();
            assert_eq!(e.parent(), Some(dir_id));
        }
    }
}

#[test]
fn entry_path_reconstructs_parent_chain() {
    let tree = build_sample_tree();
    assert_eq!(tree.entry_path(1).unwrap(), "root_link");
    assert_eq!(tree.entry_path(5).unwrap(), "root_link/banana/carrot");
    assert_eq!(tree.entry_path(6).unwrap(), "root_link/banana/carrot/date");
    assert_eq!(
        tree.abs_entry_path(8).unwrap(),
        "/fixtures-zzz/root_link/fennel/grape"
    );
}

#[test]
fn missing_entry_reports_not_found() {
    let tree = build_sample_tree();
    assert_eq!(tree.entry_path(999).unwrap_err(), WtError::NotFound);
    assert_eq!(tree.lookup(999).unwrap_err(), WtError::NotFound);
    assert!(!tree.has_entry(999));
}

#[test]
fn ignoring_is_monotone_downward() {
    let mut tree = Worktree::new(1, "/fixtures-zzz/repo".to_string());
    let mut scanner = tree.begin_scan(RootMeta { ino: 1, is_dir: true, is_symlink: false });
    let listings = vec![
        ("repo", vec![child(".git", 2, true), child("src", 3, true)]),
        ("repo/.git", vec![child("config", 4, false), child("refs", 5, true)]),
        ("repo/.git/refs", vec![child("heads", 6, false)]),
        ("repo/src", vec![child("main", 7, false)]),
    ];
    pump(&mut tree, &mut scanner, &listings);
    scanner.finish(&mut tree).unwrap();

    // The version-control metadata directory is forced ignored, and
    // everything discovered beneath it stays ignored.
    assert!(tree.lookup(2).unwrap().is_ignored());
    assert!(tree.lookup(4).unwrap().is_ignored());
    assert!(tree.lookup(5).unwrap().is_ignored());
    assert!(tree.lookup(6).unwrap().is_ignored());
    assert!(!tree.lookup(7).unwrap().is_ignored());

    // Ignored records are excluded unless asked for.
    let hidden = match_paths(&vec![&tree], "config", false, false, 10);
    assert_eq!(hidden.len(), 0);
    let shown = match_paths(&vec![&tree], "config", true, false, 10);
    assert_eq!(shown.len(), 1);
    assert_eq!(shown[0].entry_id, 4);
}

#[test]
fn root_as_plain_file_scans_to_single_entry() {
    let mut tree = Worktree::new(7, "/fixtures-zzz/lone-file".to_string());
    let scanner = tree.begin_scan(RootMeta { ino: 42, is_dir: false, is_symlink: false });
    assert_eq!(scanner.pending_jobs(), 0);
    scanner.finish(&mut tree).unwrap();
    assert_eq!(tree.entry_count(), 1);
    assert_eq!(tree.file_count(), 1);
    assert_eq!(tree.entry_path(42).unwrap(), "lone-file");
}

#[test]
fn case_folding_flows_through_search() {
    let mut tree = Worktree::new(1, "/fixtures-zzz/mixed".to_string());
    let mut scanner = tree.begin_scan(RootMeta { ino: 1, is_dir: true, is_symlink: false });
    let listings = vec![("mixed", vec![child("CAPS.TXT", 2, false), child("banana", 3, false)])];
    pump(&mut tree, &mut scanner, &listings);
    scanner.finish(&mut tree).unwrap();

    // An upper-case query still hits without smart case: both sides are
    // case folded.
    let r = match_paths(&vec![&tree], "BNA", false, false, 10);
    assert_eq!(r.len(), 1);
    assert_eq!(r[0].entry_id, 3);

    // An upper-case record is found by a folded query.
    let r = match_paths(&vec![&tree], "capstxt", false, false, 10);
    assert_eq!(r.len(), 1);
    assert_eq!(r[0].entry_id, 2);

    // With smart case, a mixed-case query is matched verbatim.
    let r = match_paths(&vec![&tree], "bNA", false, true, 10);
    assert_eq!(r.len(), 0);
    let r = match_paths(&vec![&tree], "CAPS", false, true, 10);
    assert_eq!(r.len(), 1);
    assert_eq!(r[0].entry_id, 2);
}

#[test]
fn max_results_caps_hits_in_feed_order() {
    let tree = build_sample_tree();
    let r = match_paths(&vec![&tree], "e", true, false, 2);
    assert_eq!(r.len(), 2);
    let all = match_paths(&vec![&tree], "e", true, false, 100);
    assert_eq!(all.len(), 4);
    assert_eq!(r[0], all[0]);
    assert_eq!(r[1], all[1]);
}

#[test]
fn char_bag_tracks_letters_and_digits() {
    let bag = char_bag_of(&vec!['a', 'b', 'a', 'B', '0', '!']);
    let expected: u64 = (1 << 0) | (1 << 1) | (1 << 26);
    assert_eq!(bag.bits, expected);
}

#[test]
fn buffer_size_is_capped() {
    let small = Snapshot::from_text("abc".to_string());
    assert_eq!(small.buffer_size(), 3);
    let large = Snapshot::from_text("x".repeat(100_000));
    assert_eq!(large.buffer_size(), 10 * 1024);
}

#[test]
fn contains_path_is_component_wise() {
    let tree = build_sample_tree();
    assert!(tree.contains_path("/fixtures-zzz/root_link"));
    assert!(tree.contains_path("/fixtures-zzz/root_link/banana"));
    assert!(!tree.contains_path("/fixtures-zzz/root_linkage"));
    assert!(!tree.contains_path("/fixtures-zzz"));
}

#[test]
fn files_iteration_visits_every_file_once() {
    let tree = build_sample_tree();
    let mut files = tree.files();
    let mut seen: Vec<(u64, String)> = Vec::new();
    while let Some(item) = files.next() {
        seen.push((item.entry_id, item.path));
    }
    assert_eq!(seen.len(), 4);
    for (id, path) in &seen {
        assert_eq!(&tree.entry_path(*id).unwrap(), path);
    }
}

#[test]
fn traversal_events_are_balanced() {
    let tree = build_sample_tree();
    let mut iter = tree.iter();
    let mut pushes = 0usize;
    let mut pops = 0usize;
    while let Some(ev) = iter.next() {
        match ev {
            worktree::iter::Traversal::Push { .. } => pushes += 1,
            worktree::iter::Traversal::Pop => pops += 1,
        }
    }
    assert_eq!(pushes, 8);
    assert_eq!(pops, 8);
}

#[test]
fn render_of_empty_tree() {
    let tree = Worktree::new(1, "/fixtures-zzz/nothing".to_string());
    assert_eq!(tree.render(), "Empty tree\n");
}

#[test]
fn file_handle_carries_identity() {
    let tree = build_sample_tree();
    let h = worktree::handle::FileHandle::new(1, 6);
    assert_eq!(h.entry_id(), (1, 6));
    assert_eq!(h.path(&tree).unwrap(), "root_link/banana/carrot/date");
    assert!(h.load_history(&tree).is_none());
}

#[test]
fn root_named_slash_skips_one_character() {
    let mut tree = Worktree::new(1, "/".to_string());
    let mut scanner = tree.begin_scan(RootMeta { ino: 1, is_dir: true, is_symlink: false });
    let listings = vec![("/", vec![child("etc", 2, false)])];
    pump(&mut tree, &mut scanner, &listings);
    scanner.finish(&mut tree).unwrap();
    assert_eq!(tree.file_count(), 1);
    let r = match_paths(&vec![&tree], "etc", false, false, 10);
    assert_eq!(r.len(), 1);
    assert_eq!(r[0].entry_id, 2);
}

#[test]
fn multi_tree_search_reports_tree_ids() {
    let a = build_sample_tree();
    let mut b = Worktree::new(2, "/fixtures-zzz/other".to_string());
    let mut scanner = b.begin_scan(RootMeta { ino: 1, is_dir: true, is_symlink: false });
    let listings = vec![("other", vec![child("date", 9, false)])];
    pump(&mut b, &mut scanner, &listings);
    scanner.finish(&mut b).unwrap();

    // With several trees no prefix is skipped, so the second tree's root
    // folder name takes part in matching.
    let r = match_paths(&vec![&a, &b], "date", false, false, 10);
    assert_eq!(r.len(), 2);
    assert_eq!(r[0].tree_id, 1);
    assert_eq!(r[0].entry_id, 6);
    assert_eq!(r[1].tree_id, 2);
    assert_eq!(r[1].entry_id, 9);
}

#[test]
fn path_components_match_parent_chain_names() {
    let tree = build_sample_tree();
    let comps = tree.entry_path_components(6).unwrap();
    assert_eq!(comps, vec!["root_link", "banana", "carrot", "date"]);
    assert!(tree.entry_path_components(999).is_err());
}

#[test]
fn innermost_ignore_verdict_decides() {
    assert!(!decide(&vec![]));
    assert!(decide(&vec![MatchKind::Ignored]));
    assert!(!decide(&vec![MatchKind::Whitelisted]));
    assert!(!decide(&vec![MatchKind::NoMatch]));
    // The innermost opinion wins over an outer one.
    assert!(!decide(&vec![MatchKind::Ignored, MatchKind::Whitelisted]));
    assert!(decide(&vec![MatchKind::Whitelisted, MatchKind::Ignored]));
    // No opinion passes the decision outward.
    assert!(decide(&vec![MatchKind::Ignored, MatchKind::NoMatch]));
    assert!(!decide(&vec![MatchKind::Whitelisted, MatchKind::NoMatch, MatchKind::NoMatch]));
}

#[test]
fn absolute_paths_for_roots_directly_under_slash() {
    // The parent of a root directly under `/` is `/` itself.
    let mut tree = Worktree::new(1, "/x".to_string());
    let mut scanner = tree.begin_scan(RootMeta { ino: 1, is_dir: true, is_symlink: false });
    let listings = vec![("x", vec![child("f", 2, false)])];
    pump(&mut tree, &mut scanner, &listings);
    scanner.finish(&mut tree).unwrap();
    assert_eq!(tree.entry_path(2).unwrap(), "x/f");
    assert_eq!(tree.abs_entry_path(2).unwrap(), "/x/f");

    // A relative root without a parent leaves the path relative.
    let mut rel = Worktree::new(2, "y".to_string());
    let mut scanner = rel.begin_scan(RootMeta { ino: 1, is_dir: true, is_symlink: false });
    let listings = vec![("y", vec![child("g", 3, false)])];
    pump(&mut rel, &mut scanner, &listings);
    scanner.finish(&mut rel).unwrap();
    assert_eq!(rel.abs_entry_path(3).unwrap(), "y/g");
}

#[test]
fn root_named_slash_joins_without_doubling() {
    let mut tree = Worktree::new(1, "/".to_string());
    let mut scanner = tree.begin_scan(RootMeta { ino: 1, is_dir: true, is_symlink: false });
    let listings = vec![("/", vec![child("etc", 2, false)])];
    pump(&mut tree, &mut scanner, &listings);
    scanner.finish(&mut tree).unwrap();
    assert_eq!(tree.entry_path(2).unwrap(), "/etc");
}
