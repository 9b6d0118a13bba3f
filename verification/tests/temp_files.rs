use fullframe::temp_files::{check_deletable, check_movable, path_within};

#[test]
fn paths_compare_by_resolved_components() {
    let cases = [
        ("/tmp/fullframe-1.mp4", "/tmp", true),
        ("/tmp/fullframe-1.mp4", "/tmp/", true),
        ("/tmp//a/./b", "/tmp/a", true),
        ("/tmpx/a", "/tmp", false),
        ("/var/tmp/a", "/tmp", false),
        ("/tmp/../etc/passwd", "/tmp", false),
        ("/t/../e", "/t", false),
        ("/tmp/a/../b", "/tmp", true),
        ("/tmp/a/../..", "/tmp", false),
        ("/tmp/..", "/tmp", false),
        ("/../tmp/x", "/tmp", true),
        ("/tmp/.", "/tmp", true),
        ("tmp/a", "/tmp", false),
        ("./a/b", ".", true),
        ("a/b", "./a", true),
        ("../a", "a", false),
        ("/", "/", true),
        ("", "", true),
    ];
    for (p, b, under) in cases {
        assert_eq!(path_within(p, b), under, "{p:?} {b:?}");
    }
}

#[test]
fn temp_files_only() {
    assert!(check_movable("/tmp/fullframe-recording-1.mp4", "/tmp").is_ok());
    assert_eq!(
        check_movable("/home/u/x.mp4", "/tmp").unwrap_err(),
        "refusing to move a file from outside the temp dir"
    );
    assert_eq!(
        check_movable("/tmp/../home/u/x.mp4", "/tmp").unwrap_err(),
        "refusing to move a file from outside the temp dir"
    );
    assert!(check_deletable("/tmp/x.mp4", "/tmp/").is_ok());
    assert_eq!(
        check_deletable("/etc/passwd", "/tmp").unwrap_err(),
        "refusing to delete a file outside the temp dir"
    );
    assert_eq!(
        check_deletable("/tmp/../etc/passwd", "/tmp").unwrap_err(),
        "refusing to delete a file outside the temp dir"
    );
}
