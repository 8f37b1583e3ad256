use ike::fs::{
    absolute_path, after_canonicalize, after_parent_canonicalize, is_device_path, is_file,
    is_under_proc, normalize_path, plan_open, read_failure, strip_verbatim_prefix, CanonicalStep, FileSystem,
    FsError, IoErrorKind, OpenPlan, Platform,
};

#[test]
fn plan_linux_plain_path_opens_directly() {
    assert_eq!(
        plan_open("/home/u/./a/../b.txt", "/cwd", Platform::Linux),
        OpenPlan::Direct("/home/u/b.txt".to_string())
    );
}

#[test]
fn plan_relative_joins_cwd() {
    assert_eq!(
        plan_open("x/../y.txt", "/work", Platform::Linux),
        OpenPlan::Direct("/work/y.txt".to_string())
    );
}

#[test]
fn plan_proc_is_canonicalized_on_linux() {
    assert_eq!(
        plan_open("/proc/self/fd/0", "/", Platform::Linux),
        OpenPlan::Canonicalize("/proc/self/fd/0".to_string())
    );
    assert_eq!(
        plan_open("/process/x", "/", Platform::Linux),
        OpenPlan::Direct("/process/x".to_string())
    );
}

#[test]
fn plan_other_platforms_canonicalize() {
    assert_eq!(
        plan_open("/a/b", "/", Platform::Other),
        OpenPlan::Canonicalize("/a/b".to_string())
    );
}

#[test]
fn device_paths_bypass_everything() {
    let dev = r"\\.\PhysicalDrive0";
    assert!(is_device_path(dev, Platform::Windows));
    assert!(!is_device_path(dev, Platform::Linux));
    assert!(!is_device_path(r"\\.\C:\x", Platform::Windows));
    assert_eq!(plan_open(dev, "/", Platform::Windows), OpenPlan::Direct(dev.to_string()));
}

#[test]
fn proc_root_detection() {
    assert!(is_under_proc("/proc"));
    assert!(is_under_proc("/proc/1/status"));
    assert!(!is_under_proc("/procfs"));
    assert!(!is_under_proc("/pro"));
}

#[test]
fn canonical_success_opens() {
    assert_eq!(
        after_canonicalize("/a/b", Ok("/real/a/b".to_string()), Platform::Linux),
        CanonicalStep::Open("/real/a/b".to_string())
    );
}

#[test]
fn missing_leaf_falls_back_to_parent() {
    let step = after_canonicalize("/tmp/dir/new.txt", Err(IoErrorKind::NotFound), Platform::Linux);
    assert_eq!(
        step,
        CanonicalStep::CanonicalizeParent {
            parent: "/tmp/dir".to_string(),
            leaf: "new.txt".to_string()
        }
    );
    let r = after_parent_canonicalize(
        "new.txt",
        IoErrorKind::NotFound,
        Ok("/private/tmp/dir".to_string()),
        Platform::Linux,
    );
    assert_eq!(r, Ok("/private/tmp/dir/new.txt".to_string()));
    assert!(r.unwrap().ends_with("new.txt"));
}

#[test]
fn parent_failure_surfaces_first_error() {
    let r = after_parent_canonicalize("x", IoErrorKind::NotFound, Err(IoErrorKind::PermissionDenied), Platform::Linux);
    assert_eq!(r, Err(FsError::Io(IoErrorKind::NotFound)));
}

#[test]
fn root_without_leaf_fails() {
    assert_eq!(
        after_canonicalize("/", Err(IoErrorKind::Other), Platform::Linux),
        CanonicalStep::Fail(FsError::Io(IoErrorKind::Other))
    );
}

#[test]
fn verbatim_prefix_stripped() {
    assert_eq!(strip_verbatim_prefix(r"\\?\C:\work\a"), r"C:\work\a");
    assert_eq!(strip_verbatim_prefix("/plain"), "/plain");
}

#[test]
fn normalize_path_outcomes() {
    assert_eq!(
        normalize_path("/a/b", Ok(r"\\?\C:\a\b".to_string())),
        Ok(r"C:\a\b".to_string())
    );
    assert_eq!(
        normalize_path("/a/b", Err(IoErrorKind::NotFound)),
        Err(FsError::FileNotFound("/a/b".to_string()))
    );
    assert_eq!(
        normalize_path("/a/b", Err(IoErrorKind::PermissionDenied)),
        Err(FsError::FailedToReadFile("/a/b".to_string()))
    );
}

#[test]
fn absolute_path_joins_relative() {
    assert_eq!(absolute_path("src/x.ts", "/proj", Platform::Linux), "/proj/src/x.ts");
    assert_eq!(absolute_path("/etc/x", "/proj", Platform::Linux), "/etc/x");
}

#[test]
fn concurrent_create_dir_all_both_succeed() {
    assert_eq!(FileSystem::settle_create_dir_all(Ok(()), true), Ok(()));
    assert_eq!(FileSystem::settle_create_dir_all(Err(IoErrorKind::AlreadyExists), true), Ok(()));
    assert_eq!(
        FileSystem::settle_create_dir_all(Err(IoErrorKind::PermissionDenied), false),
        Err(FsError::Io(IoErrorKind::PermissionDenied))
    );
}

#[test]
fn create_dir_all_over_a_file_fails() {
    assert_eq!(
        FileSystem::settle_create_dir_all(Err(IoErrorKind::AlreadyExists), false),
        Err(FsError::Io(IoErrorKind::AlreadyExists))
    );
}

#[test]
fn create_dir_reports_existing() {
    assert_eq!(
        FileSystem::settle_create_dir(Err(IoErrorKind::AlreadyExists)),
        Err(FsError::Io(IoErrorKind::AlreadyExists))
    );
    assert_eq!(FileSystem::settle_create_dir(Ok(())), Ok(()));
}

#[test]
fn file_detection_by_extension() {
    assert!(is_file("src/main.ts"));
    assert!(is_file("a.b/c.json"));
    assert!(!is_file("src/dir"));
    assert!(!is_file("trailing."));
    assert!(!is_file("x.t-s"));
}

#[test]
fn read_failure_kinds() {
    assert_eq!(read_failure("/x.json", IoErrorKind::NotFound), FsError::FileNotFound("/x.json".to_string()));
    assert_eq!(read_failure("/x.json", IoErrorKind::Other), FsError::FailedToReadFile("/x.json".to_string()));
}

#[test]
fn windows_drive_path_not_joined_onto_cwd() {
    assert_eq!(
        plan_open(r"C:\data\a.txt", r"C:\work", Platform::Windows),
        OpenPlan::Canonicalize(r"C:\data\a.txt".to_string())
    );
    assert_eq!(
        plan_open(r"a\b.txt", r"C:\work", Platform::Windows),
        OpenPlan::Canonicalize(r"C:\work\a\b.txt".to_string())
    );
    assert_eq!(absolute_path(r"D:\x", r"C:\work", Platform::Windows), r"D:\x");
}

#[test]
fn windows_missing_leaf_keeps_prefix() {
    assert_eq!(
        after_canonicalize(r"C:\dir\new.txt", Err(IoErrorKind::NotFound), Platform::Windows),
        CanonicalStep::CanonicalizeParent {
            parent: r"C:\dir".to_string(),
            leaf: "new.txt".to_string()
        }
    );
    assert_eq!(
        after_parent_canonicalize("new.txt", IoErrorKind::NotFound, Ok(r"C:\real".to_string()), Platform::Windows),
        Ok(r"C:\real\new.txt".to_string())
    );
}
