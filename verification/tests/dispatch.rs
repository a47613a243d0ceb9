use file_service::file_system::FileSystem;
use file_service::file_system::SystemResult;
use file_service::protocol::split_fields;
use file_service::server_handler::interact;
use file_service::server_handler::ClientSystem;

fn fields(parts: &[&str]) -> Vec<String> {
    parts.iter().map(|p| p.to_string()).collect()
}

#[test]
fn a_whole_session_through_the_dispatcher() {
    let mut fs = FileSystem::new();
    let mut cs = ClientSystem::new();
    assert_eq!(
        interact(&fields(&["m", "r", "bob", "pw"]), &mut fs, &mut cs),
        Some(SystemResult::Success)
    );
    assert_eq!(
        interact(&fields(&["m", "l", "bob", "pw"]), &mut fs, &mut cs),
        Some(SystemResult::Success)
    );
    assert_eq!(
        interact(&fields(&["c", "c", "a", "hi", "RW", "RW"]), &mut fs, &mut cs),
        Some(SystemResult::Success)
    );
    assert_eq!(
        interact(&fields(&["c", "o", "a", "R"]), &mut fs, &mut cs),
        Some(SystemResult::Success)
    );
    assert_eq!(
        interact(&fields(&["c", "l", "0", "2"]), &mut fs, &mut cs),
        Some(SystemResult::Success)
    );
    assert_eq!(
        interact(&fields(&["c", "w", "0", "zz", "2"]), &mut fs, &mut cs),
        Some(SystemResult::OpenInInvalidMode)
    );
    assert_eq!(
        interact(&fields(&["c", "x", "0"]), &mut fs, &mut cs),
        Some(SystemResult::Success)
    );
    assert_eq!(
        interact(&fields(&["c", "d", "a"]), &mut fs, &mut cs),
        Some(SystemResult::Success)
    );
    assert_eq!(
        interact(&fields(&["c", "e"]), &mut fs, &mut cs),
        Some(SystemResult::Exit)
    );
    assert_eq!(
        interact(&fields(&["m", "e"]), &mut fs, &mut cs),
        Some(SystemResult::Exit)
    );
}

#[test]
fn upper_case_operation_tags_accepted() {
    let mut fs = FileSystem::new();
    let mut cs = ClientSystem::new();
    assert_eq!(
        interact(&fields(&["m", "R", "bob", "pw"]), &mut fs, &mut cs),
        Some(SystemResult::Success)
    );
    assert_eq!(
        interact(&fields(&["c", "C", "a", "hi", "RW", "RW"]), &mut fs, &mut cs),
        Some(SystemResult::Success)
    );
    assert_eq!(
        interact(&fields(&["c", "O", "a", "rw"]), &mut fs, &mut cs),
        Some(SystemResult::Success)
    );
}

#[test]
fn malformed_requests_yield_nothing() {
    let mut fs = FileSystem::new();
    let mut cs = ClientSystem::new();
    // Too few fields for any request.
    assert_eq!(interact(&fields(&[]), &mut fs, &mut cs), None);
    assert_eq!(interact(&fields(&["c"]), &mut fs, &mut cs), None);
    // Unknown menu and operation tags.
    assert_eq!(interact(&fields(&["z", "c", "a"]), &mut fs, &mut cs), None);
    assert_eq!(interact(&fields(&["c", "q"]), &mut fs, &mut cs), None);
    assert_eq!(interact(&fields(&["cc", "c"]), &mut fs, &mut cs), None);
    // Too few or unreadable arguments.
    assert_eq!(interact(&fields(&["c", "c", "a", "hi"]), &mut fs, &mut cs), None);
    assert_eq!(
        interact(&fields(&["c", "c", "a", "hi", "RW", "Q"]), &mut fs, &mut cs),
        None
    );
    assert_eq!(interact(&fields(&["c", "x", "abc"]), &mut fs, &mut cs), None);
    assert_eq!(interact(&fields(&["c", "l", "0"]), &mut fs, &mut cs), None);
    assert_eq!(interact(&fields(&["m", "r", "bob"]), &mut fs, &mut cs), None);
}

#[test]
fn request_lines_split_and_dispatch() {
    let mut fs = FileSystem::new();
    let mut cs = ClientSystem::new();
    let line = file_service::client_input_handling::create_file(
        "a",
        "hello",
        file_service::file_system::Permission::ReadWrite,
        file_service::file_system::Permission::ReadWrite,
    );
    let args = split_fields(line.trim_end());
    assert_eq!(interact(&args, &mut fs, &mut cs), Some(SystemResult::Success));
    let line = file_service::client_input_handling::open_file(
        "a",
        file_service::file_system::Permission::Read,
    );
    let args = split_fields(line.trim_end());
    assert_eq!(interact(&args, &mut fs, &mut cs), Some(SystemResult::Success));
    let line = file_service::client_input_handling::read_file(0, 5);
    let args = split_fields(line.trim_end());
    assert_eq!(interact(&args, &mut fs, &mut cs), Some(SystemResult::Success));
}
