use swal_agent::web_tools::{
    clone_repo, commit_all, delete_file, is_available, list_dir, parent_and_name, path_segments, push,
    read_file, run_cmd, run_cmd_in, status, status_line, status_lines, write_file,
};

#[test]
fn git_test_native_fallback() {
    let e = Err("isomorphic-git unavailable on native".to_string());
    assert_eq!(clone_repo("https://github.com/example/repo.git", "dir"), e);
    assert_eq!(commit_all("commit message"), e);
    assert_eq!(status(), Err("isomorphic-git unavailable on native".to_string()));
    assert_eq!(push("origin"), e);
}

#[test]
fn opfs_test_native_fallback() {
    assert_eq!(read_file("foo.txt"), Err("OPFS unavailable on native".to_string()));
    assert_eq!(write_file("foo.txt", "content"), Err("OPFS unavailable on native".to_string()));
    assert_eq!(list_dir("foo/bar"), Err("OPFS unavailable on native".to_string()));
    assert_eq!(delete_file("foo.txt"), Err("OPFS unavailable on native".to_string()));
}

#[test]
fn test_wasm_dummy() {
    assert!(true);
}

#[test]
fn test_shell_native() {
    assert_eq!(is_available(), false);
    let res = run_cmd("echo 123");
    assert!(res.is_err());
    assert_eq!(res.unwrap_err(), "WebContainers unavailable on native");
    let res_in = run_cmd_in("dir", "echo 123");
    assert!(res_in.is_err());
    assert_eq!(res_in.unwrap_err(), "WebContainers unavailable on native");
}

#[test]
fn git_status_lines() {
    assert_eq!(status_line("a.rs", 1, 1, 1), None);
    assert_eq!(status_line("a.rs", 0, 2, 0).unwrap(), "? a.rs");
    assert_eq!(status_line("a.rs", 0, 2, 2).unwrap(), "A a.rs");
    assert_eq!(status_line("a.rs", 1, 2, 1).unwrap(), "M a.rs");
    assert_eq!(status_line("a.rs", 1, 2, 2).unwrap(), "M a.rs");
    assert_eq!(status_line("a.rs", 1, 0, 1).unwrap(), "D a.rs");
    assert_eq!(status_line("a.rs", 1, 0, 0).unwrap(), "D a.rs");
    assert_eq!(status_line("a.rs", 0, 0, 3).unwrap(), "a.rs (0, 0, 3)");
    assert_eq!(status_line("a.rs", -1, 2, 3).unwrap(), "a.rs (-1, 2, 3)");
    let rows = vec![("x".to_string(), 1, 1, 1), ("y".to_string(), 0, 2, 0), ("z".to_string(), 1, 0, 0)];
    assert_eq!(status_lines(&rows), vec!["? y".to_string(), "D z".to_string()]);
}

#[test]
fn opfs_paths() {
    assert_eq!(path_segments(" a / ./b//.. / c.txt "), vec!["a".to_string(), "b".to_string(), "c.txt".to_string()]);
    assert!(path_segments("/./..//").is_empty());
    assert_eq!(parent_and_name("dir/sub/file.txt").unwrap(), (vec!["dir".to_string(), "sub".to_string()], "file.txt".to_string()));
    assert_eq!(parent_and_name("file").unwrap(), (vec![], "file".to_string()));
    assert_eq!(parent_and_name("  / . ").unwrap_err(), "Path is empty or invalid");
}
