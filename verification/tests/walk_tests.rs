use vgrep::{collect_files_recursively, keep_regular_files, plan_targets, Config, FileEntry,
    ParsedCommand};

fn entry(is_file: bool, path: &str) -> FileEntry {
    FileEntry { is_file, path: path.to_string() }
}

fn strings(tokens: &[&str]) -> Vec<String> {
    let mut v: Vec<String> = Vec::new();
    for t in tokens {
        v.push(t.to_string());
    }
    v
}

#[test]
fn non_recursive_targets_pass_through() {
    let args = strings(&["prog", "apple", "one.txt", "missing.txt", "a_directory"]);
    match Config::new(&args) {
        Ok(ParsedCommand::Run(c)) => {
            let planned = plan_targets(&c);
            assert_eq!(planned, strings(&["one.txt", "missing.txt", "a_directory"]));
        }
        _ => panic!("expected a run"),
    }
}

#[test]
fn walking_a_missing_root_finds_nothing() {
    let roots = strings(&["no_such_directory_for_this_test"]);
    let files = collect_files_recursively(&roots);
    assert_eq!(files.len(), 0);
}

#[test]
fn no_targets_no_files() {
    let files = collect_files_recursively(&Vec::new());
    assert_eq!(files.len(), 0);
}

#[test]
fn only_regular_files_are_kept_in_order() {
    let entries = vec![
        entry(false, "root"),
        entry(true, "root/a.txt"),
        entry(false, "root/sub"),
        entry(true, "root/sub/b.txt"),
        entry(true, "root/c.txt"),
    ];
    let kept = keep_regular_files(&entries);
    assert_eq!(kept, strings(&["root/a.txt", "root/sub/b.txt", "root/c.txt"]));
}

#[test]
fn duplicate_paths_are_kept() {
    let entries = vec![entry(true, "again.txt"), entry(true, "again.txt")];
    let kept = keep_regular_files(&entries);
    assert_eq!(kept, strings(&["again.txt", "again.txt"]));
}

#[test]
fn no_regular_files_means_nothing_kept() {
    let entries = vec![entry(false, "root"), entry(false, "root/sub")];
    let kept = keep_regular_files(&entries);
    assert_eq!(kept.len(), 0);
}
