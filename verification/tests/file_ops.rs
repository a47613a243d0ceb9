use file_service::file_system::FileSystem;
use file_service::file_system::Permission;
use file_service::file_system::SystemResult;
use file_service::file_system::_File;

fn fresh(names: &[(&str, &str, Permission, Permission)]) -> FileSystem {
    let mut fs = FileSystem::new();
    for (name, content, owner, others) in names {
        let r = fs.add_file(_File::new(
            name.to_string(),
            content.to_string(),
            *owner,
            *others,
        ));
        assert_eq!(r, SystemResult::Success);
    }
    fs
}

#[test]
fn create_then_delete_then_open_reports_missing() {
    let mut fs = fresh(&[("a", "hello", Permission::ReadWrite, Permission::ReadWrite)]);
    assert_eq!(fs.delete_file("a".to_string()), SystemResult::Success);
    assert_eq!(
        fs.open_file("a".to_string(), Permission::Read),
        SystemResult::FileDoesntExist
    );
}

#[test]
fn sixth_open_rejected() {
    let mut fs = FileSystem::new();
    for name in ["f1", "f2", "f3", "f4", "f5", "f6"] {
        let r = fs.add_file(_File::new(
            name.to_string(),
            "x".to_string(),
            Permission::ReadWrite,
            Permission::ReadWrite,
        ));
        assert_eq!(r, SystemResult::Success);
    }
    for name in ["f1", "f2", "f3", "f4", "f5"] {
        assert_eq!(
            fs.open_file(name.to_string(), Permission::Read),
            SystemResult::Success
        );
    }
    assert_eq!(
        fs.open_file("f6".to_string(), Permission::Read),
        SystemResult::ReachedMaxOpenFiles
    );
}

#[test]
fn open_already_open_rejected() {
    let mut fs = fresh(&[("a", "hello", Permission::ReadWrite, Permission::ReadWrite)]);
    assert_eq!(
        fs.open_file("a".to_string(), Permission::Read),
        SystemResult::Success
    );
    assert_eq!(
        fs.open_file("a".to_string(), Permission::Write),
        SystemResult::FileAlreadyOpen
    );
}

#[test]
fn read_longer_than_content_rejected_and_content_kept() {
    let mut fs = fresh(&[("a", "hello", Permission::ReadWrite, Permission::ReadWrite)]);
    assert_eq!(
        fs.open_file("a".to_string(), Permission::Read),
        SystemResult::Success
    );
    let (r, content) = fs.read_file(0, 6);
    assert_eq!(r, SystemResult::MiscellaneousError);
    assert_eq!(content, None);
    let (r, content) = fs.read_file(0, 5);
    assert_eq!(r, SystemResult::Success);
    assert_eq!(content.as_deref(), Some("hello"));
}

#[test]
fn write_clamps_overstated_length() {
    let mut fs = fresh(&[("a", "hello", Permission::ReadWrite, Permission::ReadWrite)]);
    assert_eq!(
        fs.open_file("a".to_string(), Permission::ReadWrite),
        SystemResult::Success
    );
    assert_eq!(
        fs.write_to_file(0, "bye".to_string(), 10),
        SystemResult::Success
    );
    let (r, content) = fs.read_file(0, 3);
    assert_eq!(r, SystemResult::Success);
    assert_eq!(content.as_deref(), Some("bye"));
    let (r, content) = fs.read_file(0, 4);
    assert_eq!(r, SystemResult::MiscellaneousError);
    assert_eq!(content, None);
}

#[test]
fn write_takes_prefix_of_content() {
    let mut fs = fresh(&[("a", "hello", Permission::ReadWrite, Permission::ReadWrite)]);
    assert_eq!(
        fs.open_file("a".to_string(), Permission::Write),
        SystemResult::Success
    );
    assert_eq!(
        fs.write_to_file(0, "world".to_string(), 2),
        SystemResult::Success
    );
    assert_eq!(fs.close_file(0), SystemResult::Success);
    assert_eq!(
        fs.open_file("a".to_string(), Permission::Read),
        SystemResult::Success
    );
    let (r, content) = fs.read_file(0, 2);
    assert_eq!(r, SystemResult::Success);
    assert_eq!(content.as_deref(), Some("wo"));
}

#[test]
fn read_write_round_trip() {
    let mut fs = FileSystem::new();
    assert_eq!(
        fs.add_file(_File::new(
            "a".to_string(),
            "hello".to_string(),
            Permission::ReadWrite,
            Permission::ReadWrite,
        )),
        SystemResult::Success
    );
    assert_eq!(
        fs.open_file("a".to_string(), Permission::Read),
        SystemResult::Success
    );
    let (r, content) = fs.read_file(0, 5);
    assert_eq!(r, SystemResult::Success);
    assert_eq!(content.as_deref(), Some("hello"));
    // A handle opened for reading only may not write; reopen for both.
    assert_eq!(
        fs.write_to_file(0, "bye".to_string(), 3),
        SystemResult::OpenInInvalidMode
    );
    assert_eq!(fs.close_file(0), SystemResult::Success);
    assert_eq!(
        fs.open_file("a".to_string(), Permission::ReadWrite),
        SystemResult::Success
    );
    assert_eq!(
        fs.write_to_file(0, "bye".to_string(), 3),
        SystemResult::Success
    );
    let (r, content) = fs.read_file(0, 3);
    assert_eq!(r, SystemResult::Success);
    assert_eq!(content.as_deref(), Some("bye"));
}

#[test]
fn rename_preserves_open_handle() {
    let mut fs = fresh(&[("a", "hello", Permission::ReadWrite, Permission::ReadWrite)]);
    assert_eq!(
        fs.open_file("a".to_string(), Permission::ReadWrite),
        SystemResult::Success
    );
    assert_eq!(
        fs.rename_file("a".to_string(), "b".to_string()),
        SystemResult::Success
    );
    // The handle now sits on the new name with its old permission.
    assert_eq!(
        fs.open_file("b".to_string(), Permission::Read),
        SystemResult::FileAlreadyOpen
    );
    assert_eq!(
        fs.open_file("a".to_string(), Permission::Read),
        SystemResult::FileDoesntExist
    );
    let (r, content) = fs.read_file(0, 5);
    assert_eq!(r, SystemResult::Success);
    assert_eq!(content.as_deref(), Some("hello"));
}

#[test]
fn rename_errors() {
    let mut fs = fresh(&[
        ("a", "x", Permission::ReadWrite, Permission::ReadWrite),
        ("b", "y", Permission::ReadWrite, Permission::ReadWrite),
    ]);
    assert_eq!(
        fs.rename_file("missing".to_string(), "c".to_string()),
        SystemResult::FileDoesntExist
    );
    assert_eq!(
        fs.rename_file("a".to_string(), "b".to_string()),
        SystemResult::FileAlreadyExists
    );
}

#[test]
fn duplicate_create_rejected_and_table_unchanged() {
    let mut fs = fresh(&[("a", "hello", Permission::ReadWrite, Permission::ReadWrite)]);
    assert_eq!(
        fs.add_file(_File::new(
            "a".to_string(),
            "other".to_string(),
            Permission::Write,
            Permission::Write,
        )),
        SystemResult::FileAlreadyExists
    );
    assert_eq!(
        fs.open_file("a".to_string(), Permission::Read),
        SystemResult::Success
    );
    let (r, content) = fs.read_file(0, 5);
    assert_eq!(r, SystemResult::Success);
    assert_eq!(content.as_deref(), Some("hello"));
}

#[test]
fn delete_force_closes_handle() {
    let mut fs = fresh(&[
        ("a", "x", Permission::ReadWrite, Permission::ReadWrite),
        ("b", "y", Permission::ReadWrite, Permission::ReadWrite),
    ]);
    assert_eq!(
        fs.open_file("a".to_string(), Permission::Read),
        SystemResult::Success
    );
    assert_eq!(
        fs.open_file("b".to_string(), Permission::Read),
        SystemResult::Success
    );
    assert_eq!(fs.delete_file("a".to_string()), SystemResult::Success);
    // The handle on `b` shifted down to descriptor 0.
    let (r, content) = fs.read_file(0, 1);
    assert_eq!(r, SystemResult::Success);
    assert_eq!(content.as_deref(), Some("y"));
    let (r, _) = fs.read_file(1, 1);
    assert_eq!(r, SystemResult::FileNotOpen);
}

#[test]
fn delete_missing_rejected() {
    let mut fs = FileSystem::new();
    assert_eq!(
        fs.delete_file("nope".to_string()),
        SystemResult::FileDoesntExist
    );
}

#[test]
fn close_descriptor_bounds() {
    let mut fs = FileSystem::new();
    assert_eq!(fs.close_file(6), SystemResult::MiscellaneousError);
    assert_eq!(fs.close_file(5), SystemResult::FileNotOpen);
    assert_eq!(fs.close_file(0), SystemResult::FileNotOpen);
}

#[test]
fn open_permission_checked_against_owner_only() {
    let mut fs = fresh(&[
        ("w_only", "x", Permission::Write, Permission::ReadWrite),
        ("none_owner", "x", Permission::NoAccess, Permission::ReadWrite),
    ]);
    assert_eq!(
        fs.open_file("w_only".to_string(), Permission::Read),
        SystemResult::PermissionDenied
    );
    assert_eq!(
        fs.open_file("w_only".to_string(), Permission::ReadWrite),
        SystemResult::Success
    );
    // The generous others-permission is never consulted.
    assert_eq!(
        fs.open_file("none_owner".to_string(), Permission::ReadWrite),
        SystemResult::PermissionDenied
    );
}

#[test]
fn open_with_no_access_always_denied() {
    let mut fs = fresh(&[("a", "x", Permission::ReadWrite, Permission::ReadWrite)]);
    assert_eq!(
        fs.open_file("a".to_string(), Permission::NoAccess),
        SystemResult::PermissionDenied
    );
}

#[test]
fn read_requires_read_mode() {
    let mut fs = fresh(&[("a", "hello", Permission::ReadWrite, Permission::ReadWrite)]);
    assert_eq!(
        fs.open_file("a".to_string(), Permission::Write),
        SystemResult::Success
    );
    let (r, content) = fs.read_file(0, 5);
    assert_eq!(r, SystemResult::OpenInInvalidMode);
    assert_eq!(content, None);
}

#[test]
fn read_and_write_need_live_descriptor() {
    let mut fs = fresh(&[("a", "hello", Permission::ReadWrite, Permission::ReadWrite)]);
    let (r, _) = fs.read_file(0, 1);
    assert_eq!(r, SystemResult::FileNotOpen);
    assert_eq!(
        fs.write_to_file(0, "x".to_string(), 1),
        SystemResult::FileNotOpen
    );
}

#[test]
fn filename_exists_and_file_is_open() {
    let mut fs = fresh(&[("a", "hello", Permission::ReadWrite, Permission::ReadWrite)]);
    assert!(fs.filename_exists(&"a".to_string()).is_some());
    assert!(fs.filename_exists(&"b".to_string()).is_none());
    assert_eq!(
        fs.open_file("a".to_string(), Permission::Write),
        SystemResult::Success
    );
    let file = fs.get_file(&"a".to_string());
    let (fd, handle) = fs.file_is_open(file).expect("handle expected");
    assert_eq!(fd, 0);
    assert_eq!(handle.permission(), Permission::Write);
}

#[test]
fn descriptor_checks() {
    let mut fs = fresh(&[("a", "hello", Permission::ReadWrite, Permission::ReadWrite)]);
    assert!(fs.check_file_descriptor(0).is_none());
    assert_eq!(
        fs.open_file("a".to_string(), Permission::ReadWrite),
        SystemResult::Success
    );
    assert!(fs.check_file_descriptor(0).is_some());
    assert!(fs.check_readability(0));
    assert!(fs.check_writability(0));
}

#[test]
fn check_permission_is_mask_overlap() {
    let fs = fresh(&[("a", "x", Permission::ReadWrite, Permission::ReadWrite)]);
    let file = fs.get_file(&"a".to_string());
    assert!(fs.check_permission(&Permission::Read, file));
    assert!(fs.check_permission(&Permission::Write, file));
    assert!(!fs.check_permission(&Permission::NoAccess, file));
    assert_eq!(Permission::NoAccess.mask(), 0);
    assert_eq!(Permission::Write.mask(), 1);
    assert_eq!(Permission::Read.mask(), 2);
    assert_eq!(Permission::ReadWrite.mask(), 3);
}
