use grepr::resolve::resolve_event;
use grepr::{ends_walk, find_files, EntryKind, GrepError, Walk, WalkEvent};
use rand::{distributions::Alphanumeric, Rng};

fn file(path: &str) -> WalkEvent {
    WalkEvent::Entry { path: path.to_string(), kind: EntryKind::File }
}

fn directory(path: &str) -> WalkEvent {
    WalkEvent::Entry { path: path.to_string(), kind: EntryKind::Directory }
}

fn other(path: &str) -> WalkEvent {
    WalkEvent::Entry { path: path.to_string(), kind: EntryKind::Other }
}

fn failure(reason: &str) -> WalkEvent {
    WalkEvent::Failure { reason: reason.to_string() }
}

fn walk(path: &str, events: Vec<WalkEvent>) -> Walk {
    Walk { path: path.to_string(), events }
}

fn inputs() -> Walk {
    walk(
        "./tests/inputs/",
        vec![
            directory("./tests/inputs/"),
            file("./tests/inputs/bustle.txt"),
            file("./tests/inputs/empty.txt"),
            file("./tests/inputs/fox.txt"),
            file("./tests/inputs/nobody.txt"),
        ],
    )
}

#[test]
fn test_find_files() {
    // A path that names a file: the traversal meets the file itself
    let files = find_files(
        &[walk("./tests/inputs/fox.txt", vec![file("./tests/inputs/fox.txt")])],
        false,
    );
    assert_eq!(files.len(), 1);
    assert_eq!(files[0].as_ref().unwrap(), "./tests/inputs/fox.txt");

    // The function should reject a directory without the recursive option
    let files = find_files(&[inputs()], false);
    assert_eq!(files.len(), 1);
    if let Err(e) = &files[0] {
        assert_eq!(e.message(), "./tests/inputs/ is a directory");
    }

    // Verify the function recurses to find four files in the directory
    let res = find_files(&[inputs()], true);
    let files = res
        .iter()
        .map(|r| r.as_ref().unwrap().replace("\\", "/"))
        .collect::<Vec<String>>();

    assert_eq!(files.len(), 4);

    // Generate a random string to represent a nonexistent file: the
    // traversal fails at once
    let bad: String = rand::thread_rng()
        .sample_iter(&Alphanumeric)
        .take(7)
        .map(char::from)
        .collect();
    // Verify that the function returns the bad file as an error
    let files = find_files(
        &[walk(&bad, vec![failure("No such file or directory (os error 2)")])],
        false,
    );
    assert_eq!(files.len(), 1);
    assert!(files[0].is_err());
}

#[test]
fn directory_without_recursion_is_one_error() {
    let files = find_files(&[inputs()], false);
    assert_eq!(
        files,
        vec![Err(GrepError::IsDirectory { path: "./tests/inputs/".to_string() })]
    );
    assert_eq!(files[0].as_ref().unwrap_err().message(), "./tests/inputs/ is a directory");
}

#[test]
fn directory_with_recursion_gives_its_files_in_order() {
    let files = find_files(&[inputs()], true);
    assert_eq!(
        files,
        vec![
            Ok("./tests/inputs/bustle.txt".to_string()),
            Ok("./tests/inputs/empty.txt".to_string()),
            Ok("./tests/inputs/fox.txt".to_string()),
            Ok("./tests/inputs/nobody.txt".to_string()),
        ]
    );
}

#[test]
fn nested_directories_give_no_result_of_their_own() {
    let tree = walk(
        "top",
        vec![
            directory("top"),
            file("top/a"),
            directory("top/sub"),
            file("top/sub/b"),
            other("top/sub/link"),
            directory("top/sub/deep"),
            file("top/sub/deep/c"),
        ],
    );
    let files = find_files(&[tree], true);
    assert_eq!(
        files,
        vec![
            Ok("top/a".to_string()),
            Ok("top/sub/b".to_string()),
            Ok("top/sub/deep/c".to_string()),
        ]
    );
}

#[test]
fn missing_path_is_one_error_with_path_and_reason() {
    let files = find_files(
        &[walk("nowhere", vec![failure("No such file or directory (os error 2)")])],
        true,
    );
    assert_eq!(files.len(), 1);
    let error = files[0].as_ref().unwrap_err();
    assert_eq!(
        *error,
        GrepError::Inaccessible {
            path: "nowhere".to_string(),
            reason: "No such file or directory (os error 2)".to_string(),
        }
    );
    assert_eq!(error.message(), "nowhere: No such file or directory (os error 2)");
}

#[test]
fn standard_input_is_passed_through_unchecked() {
    let files = find_files(&[walk("-", vec![])], false);
    assert_eq!(files, vec![Ok("-".to_string())]);
    // whatever a traversal of a file named "-" would have met is not looked at
    let files = find_files(&[walk("-", vec![directory("-"), failure("denied")])], true);
    assert_eq!(files, vec![Ok("-".to_string())]);
}

#[test]
fn failure_below_a_directory_does_not_end_the_walk() {
    let tree = walk(
        "top",
        vec![
            directory("top"),
            file("top/a"),
            failure("Permission denied (os error 13)"),
            file("top/z"),
        ],
    );
    let files = find_files(&[tree], true);
    assert_eq!(
        files,
        vec![
            Ok("top/a".to_string()),
            Err(GrepError::Inaccessible {
                path: "top".to_string(),
                reason: "Permission denied (os error 13)".to_string(),
            }),
            Ok("top/z".to_string()),
        ]
    );
}

#[test]
fn paths_keep_their_order_and_do_not_interact() {
    let walks = vec![
        walk("gone", vec![failure("No such file or directory (os error 2)")]),
        walk("-", vec![]),
        inputs(),
        walk("one.txt", vec![file("one.txt")]),
    ];
    let files = find_files(&walks, false);
    assert_eq!(files.len(), 4);
    assert!(files[0].is_err());
    assert_eq!(files[1], Ok("-".to_string()));
    assert_eq!(files[2], Err(GrepError::IsDirectory { path: "./tests/inputs/".to_string() }));
    assert_eq!(files[3], Ok("one.txt".to_string()));

    let files = find_files(&walks, true);
    assert_eq!(files.len(), 7);
    assert_eq!(files[2], Ok("./tests/inputs/bustle.txt".to_string()));
    assert_eq!(files[5], Ok("./tests/inputs/nobody.txt".to_string()));
    assert_eq!(files[6], Ok("one.txt".to_string()));
}

#[test]
fn directory_met_later_ends_the_walk_without_recursion() {
    // the root is a link that is followed but reported as a link
    let linked = walk(
        "link",
        vec![other("link"), file("link/a"), directory("link/sub"), file("link/sub/b")],
    );
    let files = find_files(&[linked], false);
    assert_eq!(
        files,
        vec![Ok("link/a".to_string()), Err(GrepError::IsDirectory { path: "link".to_string() })]
    );
}

#[test]
fn no_paths_give_no_results() {
    assert!(find_files(&[], false).is_empty());
    assert!(find_files(&[walk("empty", vec![])], true).is_empty());
}

#[test]
fn only_a_directory_without_recursion_ends_a_walk() {
    assert!(ends_walk(&directory("d"), false));
    assert!(!ends_walk(&directory("d"), true));
    assert!(!ends_walk(&file("f"), false));
    assert!(!ends_walk(&other("o"), false));
    assert!(!ends_walk(&failure("denied"), false));
}

#[test]
fn each_event_adds_to_the_results() {
    let mut results = vec![Ok("before".to_string())];
    resolve_event("p", true, &directory("p"), &mut results);
    resolve_event("p", true, &other("p/x"), &mut results);
    assert_eq!(results.len(), 1);
    resolve_event("p", true, &file("p/f"), &mut results);
    resolve_event("p", false, &directory("p/d"), &mut results);
    assert_eq!(
        results,
        vec![
            Ok("before".to_string()),
            Ok("p/f".to_string()),
            Err(GrepError::IsDirectory { path: "p".to_string() }),
        ]
    );
}
