use file_service::client_input_handling::close_file;
use file_service::client_input_handling::create_file;
use file_service::client_input_handling::delete_file;
use file_service::client_input_handling::get_result;
use file_service::client_input_handling::login_request;
use file_service::client_input_handling::open_file;
use file_service::client_input_handling::read_file;
use file_service::client_input_handling::register_request;
use file_service::client_input_handling::rename_file;
use file_service::client_input_handling::write_to_file;
use file_service::file_system::Permission;
use file_service::file_system::SystemResult;
use file_service::numbers::parse_i32;
use file_service::numbers::parse_usize;
use file_service::numbers::to_decimal;
use file_service::numbers::to_signed_decimal;
use file_service::protocol::parse_permission;
use file_service::protocol::permission_str;
use file_service::protocol::reply_line;
use file_service::protocol::split_fields;

#[test]
fn split_fields_cases() {
    assert_eq!(split_fields("c|c|a|b"), vec!["c", "c", "a", "b"]);
    assert_eq!(split_fields("abc"), vec!["abc"]);
    assert_eq!(split_fields(""), vec![""]);
    assert_eq!(split_fields("a||b"), vec!["a", "", "b"]);
    assert_eq!(split_fields("a|"), vec!["a", ""]);
    assert_eq!(split_fields("|a"), vec!["", "a"]);
}

#[test]
fn permission_parsing_is_case_insensitive() {
    assert_eq!(parse_permission("R"), Some(Permission::Read));
    assert_eq!(parse_permission("r"), Some(Permission::Read));
    assert_eq!(parse_permission("W"), Some(Permission::Write));
    assert_eq!(parse_permission("w"), Some(Permission::Write));
    assert_eq!(parse_permission("N"), Some(Permission::NoAccess));
    assert_eq!(parse_permission("n"), Some(Permission::NoAccess));
    assert_eq!(parse_permission("RW"), Some(Permission::ReadWrite));
    assert_eq!(parse_permission("rw"), Some(Permission::ReadWrite));
    assert_eq!(parse_permission("Rw"), Some(Permission::ReadWrite));
    assert_eq!(parse_permission("rW"), Some(Permission::ReadWrite));
    assert_eq!(parse_permission(""), None);
    assert_eq!(parse_permission("X"), None);
    assert_eq!(parse_permission("WR"), None);
    assert_eq!(parse_permission("RWX"), None);
}

#[test]
fn permission_printing() {
    assert_eq!(permission_str(Permission::NoAccess), "N");
    assert_eq!(permission_str(Permission::Write), "W");
    assert_eq!(permission_str(Permission::Read), "R");
    assert_eq!(permission_str(Permission::ReadWrite), "RW");
}

#[test]
fn permission_text_round_trips() {
    for p in [
        Permission::NoAccess,
        Permission::Write,
        Permission::Read,
        Permission::ReadWrite,
    ] {
        assert_eq!(parse_permission(permission_str(p)), Some(p));
    }
}

#[test]
fn parse_usize_cases() {
    assert_eq!(parse_usize("0"), Some(0));
    assert_eq!(parse_usize("42"), Some(42));
    assert_eq!(parse_usize("007"), Some(7));
    assert_eq!(parse_usize(""), None);
    assert_eq!(parse_usize("4a"), None);
    assert_eq!(parse_usize("-4"), None);
    assert_eq!(parse_usize(" 4"), None);
    assert_eq!(parse_usize("18446744073709551615"), Some(usize::MAX));
    assert_eq!(parse_usize("18446744073709551616"), None);
    assert_eq!(parse_usize("99999999999999999999999"), None);
}

#[test]
fn parse_i32_cases() {
    assert_eq!(parse_i32("0"), Some(0));
    assert_eq!(parse_i32("-14"), Some(-14));
    assert_eq!(parse_i32("2147483647"), Some(i32::MAX));
    assert_eq!(parse_i32("-2147483648"), Some(i32::MIN));
    assert_eq!(parse_i32("2147483648"), None);
    assert_eq!(parse_i32("-2147483649"), None);
    assert_eq!(parse_i32("-"), None);
    assert_eq!(parse_i32(""), None);
    assert_eq!(parse_i32("--4"), None);
    assert_eq!(parse_i32("4-"), None);
}

#[test]
fn decimal_printing() {
    assert_eq!(to_decimal(0), "0");
    assert_eq!(to_decimal(7), "7");
    assert_eq!(to_decimal(123), "123");
    assert_eq!(to_decimal(1000), "1000");
    assert_eq!(to_signed_decimal(0), "0");
    assert_eq!(to_signed_decimal(-7), "-7");
    assert_eq!(to_signed_decimal(i32::MIN), "-2147483648");
}

#[test]
fn status_codes() {
    assert_eq!(SystemResult::Success.code(), 0);
    assert_eq!(SystemResult::Exit.code(), -1);
    assert_eq!(SystemResult::FileAlreadyExists.code(), -4);
    assert_eq!(SystemResult::FileDoesntExist.code(), -5);
    assert_eq!(SystemResult::PermissionDenied.code(), -6);
    assert_eq!(SystemResult::ReachedMaxOpenFiles.code(), -7);
    assert_eq!(SystemResult::FileNotOpen.code(), -8);
    assert_eq!(SystemResult::FileAlreadyOpen.code(), -9);
    assert_eq!(SystemResult::OpenInInvalidMode.code(), -10);
    assert_eq!(SystemResult::MiscellaneousError.code(), -11);
    assert_eq!(SystemResult::ClientAlreadyExists.code(), -12);
    assert_eq!(SystemResult::ClientDoesntExist.code(), -13);
    assert_eq!(SystemResult::WrongCredentials.code(), -14);
    assert_eq!(SystemResult::ClosedConnection.code(), -30);
}

#[test]
fn status_code_round_trips() {
    for r in [
        SystemResult::Success,
        SystemResult::Exit,
        SystemResult::FileAlreadyExists,
        SystemResult::FileDoesntExist,
        SystemResult::PermissionDenied,
        SystemResult::ReachedMaxOpenFiles,
        SystemResult::FileNotOpen,
        SystemResult::FileAlreadyOpen,
        SystemResult::OpenInInvalidMode,
        SystemResult::MiscellaneousError,
        SystemResult::ClientAlreadyExists,
        SystemResult::ClientDoesntExist,
        SystemResult::WrongCredentials,
        SystemResult::ClosedConnection,
    ] {
        assert_eq!(SystemResult::from_code(r.code()), Some(r));
    }
    assert_eq!(SystemResult::from_code(-2), None);
    assert_eq!(SystemResult::from_code(7), None);
}

#[test]
fn reply_lines_and_client_side_reading() {
    assert_eq!(reply_line(SystemResult::Success), "0\n");
    assert_eq!(reply_line(SystemResult::FileDoesntExist), "-5\n");
    assert_eq!(reply_line(SystemResult::ClosedConnection), "-30\n");
    assert_eq!(get_result("0"), Some(SystemResult::Success));
    assert_eq!(get_result("-14"), Some(SystemResult::WrongCredentials));
    assert_eq!(get_result("-30"), Some(SystemResult::ClosedConnection));
    assert_eq!(get_result("7"), None);
    assert_eq!(get_result("x"), None);
    assert_eq!(get_result(""), None);
}

#[test]
fn reply_round_trips_through_text() {
    for r in [
        SystemResult::Success,
        SystemResult::Exit,
        SystemResult::WrongCredentials,
        SystemResult::ClosedConnection,
    ] {
        let line = reply_line(r);
        assert_eq!(get_result(line.trim_end()), Some(r));
    }
}

#[test]
fn request_lines() {
    assert_eq!(
        create_file("a", "hello", Permission::ReadWrite, Permission::ReadWrite),
        "c|c|a|hello|RW|RW\n"
    );
    assert_eq!(
        create_file("x", "", Permission::NoAccess, Permission::Write),
        "c|c|x||N|W\n"
    );
    assert_eq!(delete_file("a"), "c|d|a\n");
    assert_eq!(rename_file("a", "b"), "c|r|a|b\n");
    assert_eq!(open_file("a", Permission::Read), "c|o|a|R\n");
    assert_eq!(close_file(3), "c|x|3\n");
    assert_eq!(read_file(0, 5), "c|l|0|5\n");
    assert_eq!(write_to_file(0, "bye", 3), "c|w|0|bye|3\n");
    assert_eq!(register_request("bob", "pw"), "m|r|bob|pw\n");
    assert_eq!(login_request("bob", "pw"), "m|l|bob|pw\n");
}

#[test]
fn requests_split_back_into_their_fields() {
    let line = create_file("a", "hello", Permission::ReadWrite, Permission::Read);
    assert_eq!(
        split_fields(line.trim_end()),
        vec!["c", "c", "a", "hello", "RW", "R"]
    );
    let line = read_file(2, 10);
    assert_eq!(split_fields(line.trim_end()), vec!["c", "l", "2", "10"]);
}
