//! Building the request lines a client sends — one per operation, fields
//! separated by `|`, terminated by a newline — and reading the status line
//! the server replies with.

use crate::file_system::Permission;
use crate::file_system::SystemResult;
use crate::file_system::result_code;
use crate::file_system::result_from_code;
use crate::numbers::decimal_digits;
use crate::numbers::is_digit;
use crate::numbers::is_signed_decimal;
use crate::numbers::lemma_decimal_digits_value;
use crate::numbers::parse_i32;
use crate::numbers::signed_decimal_digits;
use crate::numbers::signed_decimal_value;
use crate::numbers::to_decimal;
use crate::protocol::join_fields;
use crate::protocol::permission_str;
use crate::protocol::permission_text;
use crate::protocol::pipe_free;
use vstd::prelude::*;
use vstd::string::StringExecFns;

verus! {

/// The request line of `create`:
/// `c|c|<name>|<content>|<owner_permission>|<others_permission>`.
pub open spec fn request_create(
    name: Seq<char>,
    content: Seq<char>,
    owner_permission: Permission,
    others_permission: Permission,
) -> Seq<char> {
    seq!['c', '|', 'c', '|'] + name + seq!['|'] + content + seq!['|'] + permission_text(
        owner_permission,
    ) + seq!['|'] + permission_text(others_permission) + seq!['\n']
}

/// The request line of `delete`: `c|d|<name>`.
pub open spec fn request_delete(name: Seq<char>) -> Seq<char> {
    seq!['c', '|', 'd', '|'] + name + seq!['\n']
}

/// The request line of `rename`: `c|r|<name>|<new_name>`.
pub open spec fn request_rename(name: Seq<char>, new_name: Seq<char>) -> Seq<char> {
    seq!['c', '|', 'r', '|'] + name + seq!['|'] + new_name + seq!['\n']
}

/// The request line of `open`: `c|o|<name>|<permission>`.
pub open spec fn request_open(name: Seq<char>, open_permission: Permission) -> Seq<char> {
    seq!['c', '|', 'o', '|'] + name + seq!['|'] + permission_text(open_permission) + seq!['\n']
}

/// The request line of `close`: `c|x|<fd>`.
pub open spec fn request_close(fd: nat) -> Seq<char> {
    seq!['c', '|', 'x', '|'] + decimal_digits(fd) + seq!['\n']
}

/// The request line of `read`: `c|l|<fd>|<length>`.
pub open spec fn request_read(fd: nat, len_to_read: nat) -> Seq<char> {
    seq!['c', '|', 'l', '|'] + decimal_digits(fd) + seq!['|'] + decimal_digits(len_to_read)
        + seq!['\n']
}

/// The request line of `write`: `c|w|<fd>|<content>|<length>`.
pub open spec fn request_write(fd: nat, content: Seq<char>, len_to_write: nat) -> Seq<char> {
    seq!['c', '|', 'w', '|'] + decimal_digits(fd) + seq!['|'] + content + seq!['|']
        + decimal_digits(len_to_write) + seq!['\n']
}

/// The request line of `register`: `m|r|<name>|<password>`.
pub open spec fn request_register(name: Seq<char>, password: Seq<char>) -> Seq<char> {
    seq!['m', '|', 'r', '|'] + name + seq!['|'] + password + seq!['\n']
}

/// The request line of `login`: `m|l|<name>|<password>`.
pub open spec fn request_login(name: Seq<char>, password: Seq<char>) -> Seq<char> {
    seq!['m', '|', 'l', '|'] + name + seq!['|'] + password + seq!['\n']
}

/// Builds the `create` request for a file's four fields.
pub fn create_file(
    name: &str,
    content: &str,
    owner_permission: Permission,
    others_permission: Permission,
) -> (r: String)
    ensures
        r@ == request_create(name@, content@, owner_permission, others_permission),
{
    let mut r = String::new();
    r.append("c|c|");
    r.append(name);
    r.append("|");
    r.append(content);
    r.append("|");
    r.append(permission_str(owner_permission));
    r.append("|");
    r.append(permission_str(others_permission));
    r.append("\n");
    proof {
        reveal_strlit("c|c|");
        reveal_strlit("|");
        reveal_strlit("\n");
        assert(r@ =~= request_create(name@, content@, owner_permission, others_permission));
    }
    r
}

/// Builds the `delete` request for a file name.
pub fn delete_file(name: &str) -> (r: String)
    ensures
        r@ == request_delete(name@),
{
    let mut r = String::new();
    r.append("c|d|");
    r.append(name);
    r.append("\n");
    proof {
        reveal_strlit("c|d|");
        reveal_strlit("\n");
        assert(r@ =~= request_delete(name@));
    }
    r
}

/// Builds the `rename` request for the old and the new name.
pub fn rename_file(name: &str, new_name: &str) -> (r: String)
    ensures
        r@ == request_rename(name@, new_name@),
{
    let mut r = String::new();
    r.append("c|r|");
    r.append(name);
    r.append("|");
    r.append(new_name);
    r.append("\n");
    proof {
        reveal_strlit("c|r|");
        reveal_strlit("|");
        reveal_strlit("\n");
        assert(r@ =~= request_rename(name@, new_name@));
    }
    r
}

/// Builds the `open` request for a name and a requested permission.
pub fn open_file(name: &str, open_permission: Permission) -> (r: String)
    ensures
        r@ == request_open(name@, open_permission),
{
    let mut r = String::new();
    r.append("c|o|");
    r.append(name);
    r.append("|");
    r.append(permission_str(open_permission));
    r.append("\n");
    proof {
        reveal_strlit("c|o|");
        reveal_strlit("|");
        reveal_strlit("\n");
        assert(r@ =~= request_open(name@, open_permission));
    }
    r
}

/// Builds the `close` request for a descriptor.
pub fn close_file(fd: usize) -> (r: String)
    ensures
        r@ == request_close(fd as nat),
{
    let mut r = String::new();
    r.append("c|x|");
    r.append(to_decimal(fd).as_str());
    r.append("\n");
    proof {
        reveal_strlit("c|x|");
        reveal_strlit("\n");
        assert(r@ =~= request_close(fd as nat));
    }
    r
}

/// Builds the `read` request for a descriptor and a length.
pub fn read_file(fd: usize, len_to_read: usize) -> (r: String)
    ensures
        r@ == request_read(fd as nat, len_to_read as nat),
{
    let mut r = String::new();
    r.append("c|l|");
    r.append(to_decimal(fd).as_str());
    r.append("|");
    r.append(to_decimal(len_to_read).as_str());
    r.append("\n");
    proof {
        reveal_strlit("c|l|");
        reveal_strlit("|");
        reveal_strlit("\n");
        assert(r@ =~= request_read(fd as nat, len_to_read as nat));
    }
    r
}

/// Builds the `write` request for a descriptor, the content to store and a
/// length.
pub fn write_to_file(fd: usize, content: &str, len_to_write: usize) -> (r: String)
    ensures
        r@ == request_write(fd as nat, content@, len_to_write as nat),
{
    let mut r = String::new();
    r.append("c|w|");
    r.append(to_decimal(fd).as_str());
    r.append("|");
    r.append(content);
    r.append("|");
    r.append(to_decimal(len_to_write).as_str());
    r.append("\n");
    proof {
        reveal_strlit("c|w|");
        reveal_strlit("|");
        reveal_strlit("\n");
        assert(r@ =~= request_write(fd as nat, content@, len_to_write as nat));
    }
    r
}

/// Builds the `register` request for a new account's name and password.
pub fn register_request(name: &str, password: &str) -> (r: String)
    ensures
        r@ == request_register(name@, password@),
{
    let mut r = String::new();
    r.append("m|r|");
    r.append(name);
    r.append("|");
    r.append(password);
    r.append("\n");
    proof {
        reveal_strlit("m|r|");
        reveal_strlit("|");
        reveal_strlit("\n");
        assert(r@ =~= request_register(name@, password@));
    }
    r
}

/// Builds the `login` request for an account's name and password.
pub fn login_request(name: &str, password: &str) -> (r: String)
    ensures
        r@ == request_login(name@, password@),
{
    let mut r = String::new();
    r.append("m|l|");
    r.append(name);
    r.append("|");
    r.append(password);
    r.append("\n");
    proof {
        reveal_strlit("m|l|");
        reveal_strlit("|");
        reveal_strlit("\n");
        assert(r@ =~= request_login(name@, password@));
    }
    r
}

/// A `create` request round trip: before its terminating newline, the line
/// is the fields `c`, `c`, the name, the content and the two permission
/// texts joined with `|`, each field separator-free — so splitting the line
/// on `|` recovers exactly those fields (see
/// [`crate::protocol::lemma_join_fields_injective`]). The name and the
/// content must not themselves contain the separator.
pub proof fn lemma_request_create_splits(
    name: Seq<char>,
    content: Seq<char>,
    owner_permission: Permission,
    others_permission: Permission,
)
    requires
        pipe_free(name),
        pipe_free(content),
    ensures
        ({
            let fields = seq![
                seq!['c'],
                seq!['c'],
                name,
                content,
                permission_text(owner_permission),
                permission_text(others_permission),
            ];
            &&& join_fields(fields) == request_create(
                name,
                content,
                owner_permission,
                others_permission,
            ).drop_last()
            &&& forall|i: int| 0 <= i < fields.len() ==> pipe_free(#[trigger] fields[i])
        }),
{
    lemma_permission_text_pipe_free(owner_permission);
    lemma_permission_text_pipe_free(others_permission);
    let tag = seq!['c'];
    let po = permission_text(owner_permission);
    let pt = permission_text(others_permission);
    let fields = seq![tag, tag, name, content, po, pt];
    let f1 = seq![tag, name, content, po, pt];
    let f2 = seq![name, content, po, pt];
    let f3 = seq![content, po, pt];
    let f4 = seq![po, pt];
    let f5 = seq![pt];
    assert(fields.drop_first() =~= f1);
    assert(f1.drop_first() =~= f2);
    assert(f2.drop_first() =~= f3);
    assert(f3.drop_first() =~= f4);
    assert(f4.drop_first() =~= f5);
    assert(join_fields(f5) == pt);
    assert(join_fields(f4) == po + seq!['|'] + join_fields(f5));
    assert(join_fields(f3) == content + seq!['|'] + join_fields(f4));
    assert(join_fields(f2) == name + seq!['|'] + join_fields(f3));
    assert(join_fields(f1) == tag + seq!['|'] + join_fields(f2));
    assert(join_fields(fields) == tag + seq!['|'] + join_fields(f1));
    assert(join_fields(fields) =~= request_create(
        name,
        content,
        owner_permission,
        others_permission,
    ).drop_last());
    assert(forall|i: int| 0 <= i < fields.len() ==> pipe_free(#[trigger] fields[i]));
}

/// A `write` request round trip: before its terminating newline, the line is
/// the fields `c`, `w`, the descriptor's digits, the content and the
/// length's digits joined with `|`, each field separator-free. The content
/// must not itself contain the separator; digits never do.
pub proof fn lemma_request_write_splits(fd: nat, content: Seq<char>, len_to_write: nat)
    requires
        pipe_free(content),
    ensures
        ({
            let fields = seq![
                seq!['c'],
                seq!['w'],
                decimal_digits(fd),
                content,
                decimal_digits(len_to_write),
            ];
            &&& join_fields(fields) == request_write(fd, content, len_to_write).drop_last()
            &&& forall|i: int| 0 <= i < fields.len() ==> pipe_free(#[trigger] fields[i])
        }),
{
    lemma_decimal_digits_pipe_free(fd);
    lemma_decimal_digits_pipe_free(len_to_write);
    let df = decimal_digits(fd);
    let dl = decimal_digits(len_to_write);
    let fields = seq![seq!['c'], seq!['w'], df, content, dl];
    let f1 = seq![seq!['w'], df, content, dl];
    let f2 = seq![df, content, dl];
    let f3 = seq![content, dl];
    let f4 = seq![dl];
    assert(fields.drop_first() =~= f1);
    assert(f1.drop_first() =~= f2);
    assert(f2.drop_first() =~= f3);
    assert(f3.drop_first() =~= f4);
    assert(join_fields(f4) == dl);
    assert(join_fields(f3) == content + seq!['|'] + join_fields(f4));
    assert(join_fields(f2) == df + seq!['|'] + join_fields(f3));
    assert(join_fields(f1) == seq!['w'] + seq!['|'] + join_fields(f2));
    assert(join_fields(fields) == seq!['c'] + seq!['|'] + join_fields(f1));
    assert(join_fields(fields) =~= request_write(fd, content, len_to_write).drop_last());
    assert(forall|i: int| 0 <= i < fields.len() ==> pipe_free(#[trigger] fields[i]));
}

/// The permission texts never contain the field separator.
proof fn lemma_permission_text_pipe_free(p: Permission)
    ensures
        pipe_free(permission_text(p)),
{
}

/// Decimal notation never contains the field separator.
proof fn lemma_decimal_digits_pipe_free(n: nat)
    ensures
        pipe_free(decimal_digits(n)),
{
    lemma_decimal_digits_value(n);
    assert forall|i: int| 0 <= i < decimal_digits(n).len() implies #[trigger] decimal_digits(n)[i]
        != '|' by {
        assert(is_digit(decimal_digits(n)[i]));
    }
}

/// The result a reply line denotes: the text must be a decimal integer and
/// that integer must be one of the status codes.
pub open spec fn spec_get_result(s: Seq<char>) -> Option<SystemResult> {
    if is_signed_decimal(s) && i32::MIN <= signed_decimal_value(s) <= i32::MAX {
        result_from_code(signed_decimal_value(s))
    } else {
        None
    }
}

/// Reads a reply line back into the result it denotes, if it denotes one.
pub fn get_result(line: &str) -> (r: Option<SystemResult>)
    ensures
        r == spec_get_result(line@),
{
    match parse_i32(line) {
        Some(code) => SystemResult::from_code(code),
        None => None,
    }
}

/// A reply round trip: the line the server writes for a result — its status
/// code in decimal, before the terminating newline — reads back as exactly
/// that result.
pub proof fn lemma_reply_round_trip(res: SystemResult)
    ensures
        spec_get_result(signed_decimal_digits(result_code(res))) == Some(res),
{
    let c = result_code(res);
    let s = signed_decimal_digits(c);
    if c >= 0 {
        lemma_decimal_digits_value(c as nat);
        assert(s[0] != '-');
    } else {
        lemma_decimal_digits_value((-c) as nat);
        assert(s[0] == '-');
        assert(s.skip(1) =~= decimal_digits((-c) as nat));
        assert(signed_decimal_value(s) == c);
    }
}

} // verus!
