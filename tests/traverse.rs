use dua::{execute, Config, Entry, Meta, PathBuf, ShardedSet, SizeReader};

fn dir(path: &str, depth: u64, inode: u64, len: u64) -> Entry {
    dir_blocks(path, depth, inode, len, 0)
}

fn dir_blocks(path: &str, depth: u64, inode: u64, len: u64, blocks: u64) -> Entry {
    Entry {
        path: PathBuf::from_string(String::from(path)),
        depth,
        meta: Ok(Meta { inode, is_dir: true, len, blocks }),
    }
}

fn file(path: &str, depth: u64, inode: u64, len: u64, blocks: u64) -> Entry {
    Entry {
        path: PathBuf::from_string(String::from(path)),
        depth,
        meta: Ok(Meta { inode, is_dir: false, len, blocks }),
    }
}

fn fault(path: &str, depth: u64, description: &str) -> Entry {
    Entry {
        path: PathBuf::from_string(String::from(path)),
        depth,
        meta: Err(String::from(description)),
    }
}

fn apparent(display_files: bool, max_depth: u64) -> Config {
    Config {
        display_files,
        max_depth,
        follow_symlink: false,
        block_size: 1,
        size_reader: SizeReader::ApparentSize,
        human_readable: false,
    }
}

fn scenario() -> Vec<Entry> {
    vec![
        dir("root", 0, 1, 0),
        file("root/a", 1, 2, 100, 1),
        dir("root/sub", 1, 3, 0),
        file("root/sub/b", 2, 4, 50, 1),
    ]
}

fn sorted(mut lines: Vec<String>) -> Vec<String> {
    lines.sort();
    lines
}

#[test]
fn nested_tree_totals_and_lines() {
    let mut record = ShardedSet::new();
    let report = execute(&scenario(), &apparent(true, u64::MAX), '\n', &mut record);
    assert_eq!(report.total, 150);
    assert_eq!(
        sorted(report.lines),
        vec![
            String::from("100\troot/a\n"),
            String::from("150\troot\n"),
            String::from("50\troot/sub\n"),
            String::from("50\troot/sub/b\n"),
        ]
    );
    assert!(report.faults.is_empty());
}

#[test]
fn directories_only_without_display_files() {
    let mut record = ShardedSet::new();
    let report = execute(&scenario(), &apparent(false, u64::MAX), '\0', &mut record);
    assert_eq!(report.total, 150);
    assert_eq!(
        sorted(report.lines),
        vec![String::from("150\troot\0"), String::from("50\troot/sub\0")]
    );
}

#[test]
fn depth_zero_prints_only_roots() {
    let mut record = ShardedSet::new();
    let report = execute(&scenario(), &apparent(true, 0), '\n', &mut record);
    assert_eq!(report.total, 150);
    assert_eq!(report.lines, vec![String::from("150\troot\n")]);
}

#[test]
fn hard_links_count_once() {
    let entries = vec![
        dir("r", 0, 1, 0),
        file("r/x", 1, 9, 700, 2),
        dir("r/d", 1, 2, 0),
        file("r/d/y", 2, 9, 700, 2),
        file("r/d/z", 2, 9, 700, 2),
        file("r/w", 1, 5, 30, 1),
    ];
    let mut record = ShardedSet::new();
    let report = execute(&entries, &apparent(false, u64::MAX), '\n', &mut record);
    assert_eq!(report.total, 730);
    assert_eq!(
        sorted(report.lines),
        vec![String::from("0\tr/d\n"), String::from("730\tr\n")]
    );
}

#[test]
fn claims_persist_across_calls_on_one_record() {
    let mut record = ShardedSet::new();
    let first = execute(&vec![file("p", 0, 3, 10, 1)], &apparent(true, 0), '\n', &mut record);
    let second = execute(&vec![file("q", 0, 3, 10, 1)], &apparent(true, 0), '\n', &mut record);
    assert_eq!(first.total, 10);
    assert_eq!(second.total, 0);
    assert_eq!(second.lines, vec![String::from("0\tq\n")]);
}

#[test]
fn separate_roots_add_up() {
    let one = vec![dir("a", 0, 1, 0), file("a/f", 1, 2, 11, 1)];
    let two = vec![dir("b", 0, 3, 0), file("b/g", 1, 4, 22, 1)];
    let mut both = Vec::new();
    both.extend(vec![dir("a", 0, 1, 0), file("a/f", 1, 2, 11, 1)]);
    both.extend(vec![dir("b", 0, 3, 0), file("b/g", 1, 4, 22, 1)]);
    let config = apparent(false, 0);
    let t1 = execute(&one, &config, '\n', &mut ShardedSet::new()).total;
    let t2 = execute(&two, &config, '\n', &mut ShardedSet::new()).total;
    let all = execute(&both, &config, '\n', &mut ShardedSet::new());
    assert_eq!(t1 + t2, all.total);
    assert_eq!(all.total, 33);
    assert_eq!(all.lines, vec![String::from("11\ta\n"), String::from("22\tb\n")]);
}

#[test]
fn symlink_read_as_link_counts_its_own_size() {
    let entries = vec![dir("r", 0, 1, 0), file("r/link", 1, 8, 12, 0)];
    let mut record = ShardedSet::new();
    let report = execute(&entries, &apparent(true, u64::MAX), '\n', &mut record);
    assert_eq!(report.total, 12);
    assert_eq!(
        sorted(report.lines),
        vec![String::from("12\tr\n"), String::from("12\tr/link\n")]
    );
}

#[test]
fn unreadable_entries_add_nothing_and_are_reported() {
    let entries = vec![
        dir("r", 0, 1, 0),
        fault("r/gone", 1, "NotFound"),
        file("r/f", 1, 2, 5, 1),
    ];
    let mut record = ShardedSet::new();
    let report = execute(&entries, &apparent(true, u64::MAX), '\n', &mut record);
    assert_eq!(report.total, 5);
    assert_eq!(report.faults, vec![String::from("NotFound at r/gone")]);
    assert_eq!(report.lines.len(), 2);
}

#[test]
fn block_usage_and_human_readable_rendering() {
    let entries = vec![dir_blocks("r", 0, 1, 4096, 8), file("r/f", 1, 2, 100, 3)];
    let config = Config {
        display_files: true,
        max_depth: u64::MAX,
        follow_symlink: false,
        block_size: 1024,
        size_reader: SizeReader::BlockUsage,
        human_readable: false,
    };
    let report = execute(&entries, &config, '\n', &mut ShardedSet::new());
    assert_eq!(report.total, 11 * 512);
    assert_eq!(
        sorted(report.lines),
        vec![String::from("2\tr/f\n"), String::from("6\tr\n")]
    );
    let human = Config { human_readable: true, ..config };
    let report = execute(&entries, &human, '\n', &mut ShardedSet::new());
    assert_eq!(
        sorted(report.lines),
        vec![String::from("1.5K\tr/f\n"), String::from("5.5K\tr\n")]
    );
}
