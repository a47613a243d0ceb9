//! The request protocol's text: one request is a line of fields separated by
//! `|`, and a permission is written `N`, `R`, `W` or `RW`, case-insensitive.

use crate::file_system::Permission;
use crate::file_system::SystemResult;
use crate::file_system::result_code;
use crate::numbers::signed_decimal_digits;
use crate::numbers::to_signed_decimal;
use vstd::prelude::*;
use vstd::string::StrSliceExecFns;
use vstd::string::StringExecFns;

verus! {

/// Whether `s` is free of the field separator.
pub open spec fn pipe_free(s: Seq<char>) -> bool {
    forall|i: int| 0 <= i < s.len() ==> #[trigger] s[i] != '|'
}

/// The line that a sequence of fields is written as: the fields in order,
/// separated by `|`. One (empty) field yields the empty line.
pub open spec fn join_fields(fields: Seq<Seq<char>>) -> Seq<char>
    decreases fields.len(),
{
    if fields.len() == 0 {
        Seq::empty()
    } else if fields.len() == 1 {
        fields[0]
    } else {
        fields[0] + seq!['|'] + join_fields(fields.drop_first())
    }
}

/// Appending a field to a nonempty sequence of fields appends a separator
/// and the field to the joined line.
pub proof fn lemma_join_fields_push(fields: Seq<Seq<char>>, x: Seq<char>)
    ensures
        join_fields(fields.push(x)) == if fields.len() == 0 {
            x
        } else {
            join_fields(fields) + seq!['|'] + x
        },
    decreases fields.len(),
{
    let pushed = fields.push(x);
    if fields.len() == 0 {
        assert(pushed.len() == 1);
        assert(pushed[0] == x);
    } else {
        lemma_join_fields_push(fields.drop_first(), x);
        assert(pushed.drop_first() =~= fields.drop_first().push(x));
        assert(pushed[0] == fields[0]);
        if fields.len() == 1 {
            assert(join_fields(pushed) == fields[0] + seq!['|'] + x);
        } else {
            assert(join_fields(pushed) == fields[0] + seq!['|'] + (join_fields(fields.drop_first())
                + seq!['|'] + x));
            assert(fields[0] + seq!['|'] + (join_fields(fields.drop_first()) + seq!['|'] + x) =~= (
            fields[0] + seq!['|'] + join_fields(fields.drop_first())) + seq!['|'] + x);
        }
    }
}

/// Two sequences of separator-free fields that write as the same line are
/// the same sequence: a line has exactly one decomposition into `|`-free
/// fields, so [`split_fields`]' contract determines its result completely.
pub proof fn lemma_join_fields_injective(a: Seq<Seq<char>>, b: Seq<Seq<char>>)
    requires
        a.len() >= 1,
        b.len() >= 1,
        forall|i: int| 0 <= i < a.len() ==> pipe_free(#[trigger] a[i]),
        forall|i: int| 0 <= i < b.len() ==> pipe_free(#[trigger] b[i]),
        join_fields(a) == join_fields(b),
    ensures
        a =~~= b,
    decreases a.len(),
{
    let ja = join_fields(a);
    let jb = join_fields(b);
    let a0 = a[0];
    let b0 = b[0];
    if a.len() == 1 && b.len() == 1 {
        assert(a =~~= b);
    } else if a.len() == 1 {
        // The other line shows a separator where this one is separator-free.
        assert(jb[b0.len() as int] == '|');
        assert(ja == a0);
        assert(ja[b0.len() as int] != '|');
    } else if b.len() == 1 {
        assert(ja[a0.len() as int] == '|');
        assert(jb == b0);
        assert(jb[a0.len() as int] != '|');
    } else {
        let ra = join_fields(a.drop_first());
        let rb = join_fields(b.drop_first());
        assert(ja == a0 + seq!['|'] + ra);
        assert(jb == b0 + seq!['|'] + rb);
        // The first fields end at the same, first, separator.
        assert(a0.len() == b0.len()) by {
            if a0.len() < b0.len() {
                assert(ja[a0.len() as int] == '|');
                assert(jb[a0.len() as int] == b0[a0.len() as int]);
                assert(b0[a0.len() as int] != '|');
            } else if b0.len() < a0.len() {
                assert(jb[b0.len() as int] == '|');
                assert(ja[b0.len() as int] == a0[b0.len() as int]);
                assert(a0[b0.len() as int] != '|');
            }
        }
        assert(a0 =~= b0) by {
            assert(forall|k: int| 0 <= k < a0.len() ==> #[trigger] a0[k] == ja[k] && b0[k] == jb[k]);
        }
        assert(ra =~= rb) by {
            assert(ra.len() == ja.len() - a0.len() - 1);
            assert(rb.len() == jb.len() - b0.len() - 1);
            assert(forall|k: int|
                0 <= k < ra.len() ==> #[trigger] ra[k] == ja[k + a0.len() + 1] && rb[k] == jb[k
                    + b0.len() + 1]);
        }
        assert(forall|i: int| 0 <= i < a.drop_first().len() ==> #[trigger] a.drop_first()[i] == a[
            i + 1
        ]);
        assert(forall|i: int| 0 <= i < b.drop_first().len() ==> #[trigger] b.drop_first()[i] == b[
            i + 1
        ]);
        lemma_join_fields_injective(a.drop_first(), b.drop_first());
        assert(a.drop_first() == b.drop_first());
        assert(a.len() == b.len());
        assert forall|i: int| 0 <= i < a.len() implies #[trigger] a[i] == b[i] by {
            if i > 0 {
                assert(a[i] == a.drop_first()[i - 1]);
                assert(b[i] == b.drop_first()[i - 1]);
            }
        }
        assert(a =~~= b);
    }
}

/// Splits a line into its `|`-separated fields: the fields are free of the
/// separator, and joining them with `|` restores the line exactly. A line
/// without separators is one field; every separator ends a field. By
/// [`lemma_join_fields_injective`] this determines the fields uniquely.
pub fn split_fields(line: &str) -> (r: Vec<String>)
    ensures
        r@.len() >= 1,
        forall|i: int| 0 <= i < r@.len() ==> pipe_free(#[trigger] r@[i]@),
        join_fields(r@.map_values(|f: String| f@)) == line@,
{
    let n = line.unicode_len();
    let mut fields: Vec<String> = Vec::new();
    let mut start: usize = 0;
    let mut i: usize = 0;
    while i < n
        invariant
            n == line@.len(),
            start <= i <= n,
            forall|k: int| 0 <= k < fields@.len() ==> pipe_free(#[trigger] fields@[k]@),
            pipe_free(line@.subrange(start as int, i as int)),
            join_fields(fields@.map_values(|f: String| f@).push(
                line@.subrange(start as int, i as int),
            )) == line@.take(i as int),
        decreases n - i,
    {
        let c = line.get_char(i);
        if c == '|' {
            let field = line.substring_char(start, i).to_owned();
            proof {
                let fs = fields@.map_values(|f: String| f@);
                let cur = line@.subrange(start as int, i as int);
                lemma_join_fields_push(fs, cur);
                lemma_map_view_push_field(fields@, field);
                lemma_join_fields_push(fs.push(cur), Seq::<char>::empty());
                assert(line@.take(i + 1) =~= line@.take(i as int) + seq!['|']);
                assert(line@.subrange(i + 1, i + 1) =~= Seq::<char>::empty());
                assert(fs.push(cur) =~= fields@.push(field).map_values(|f: String| f@));
                if fs.len() == 0 {
                    assert(join_fields(fs.push(cur).push(Seq::<char>::empty())) =~= line@.take(
                        i + 1,
                    ));
                } else {
                    assert(join_fields(fs.push(cur).push(Seq::<char>::empty())) =~= line@.take(
                        i + 1,
                    ));
                }
            }
            fields.push(field);
            start = i + 1;
        } else {
            proof {
                let fs = fields@.map_values(|f: String| f@);
                let cur = line@.subrange(start as int, i as int);
                let cur2 = line@.subrange(start as int, i + 1);
                assert(cur2 =~= cur.push(line@[i as int]));
                lemma_join_fields_push(fs, cur);
                lemma_join_fields_push(fs, cur2);
                if fs.len() == 0 {
                    assert(join_fields(fs.push(cur2)) =~= line@.take(i + 1));
                } else {
                    assert(join_fields(fs.push(cur2)) =~= line@.take(i + 1));
                }
            }
        }
        i = i + 1;
    }
    let field = line.substring_char(start, n).to_owned();
    proof {
        lemma_map_view_push_field(fields@, field);
        assert(line@.take(n as int) =~= line@);
    }
    fields.push(field);
    fields
}

/// Taking views of every field commutes with appending one field.
proof fn lemma_map_view_push_field(s: Seq<String>, x: String)
    ensures
        s.push(x).map_values(|f: String| f@) =~= s.map_values(|f: String| f@).push(x@),
{
}

/// The wire encoding of a permission.
pub open spec fn permission_text(p: Permission) -> Seq<char> {
    match p {
        Permission::NoAccess => seq!['N'],
        Permission::Write => seq!['W'],
        Permission::Read => seq!['R'],
        Permission::ReadWrite => seq!['R', 'W'],
    }
}

/// The permission a text field denotes: `N`, `R`, `W` or `RW`, in either
/// case; anything else denotes none.
pub open spec fn permission_of_text(s: Seq<char>) -> Option<Permission> {
    if s.len() == 1 {
        if s[0] == 'N' || s[0] == 'n' {
            Some(Permission::NoAccess)
        } else if s[0] == 'W' || s[0] == 'w' {
            Some(Permission::Write)
        } else if s[0] == 'R' || s[0] == 'r' {
            Some(Permission::Read)
        } else {
            None
        }
    } else if s.len() == 2 && (s[0] == 'R' || s[0] == 'r') && (s[1] == 'W' || s[1] == 'w') {
        Some(Permission::ReadWrite)
    } else {
        None
    }
}

/// Writing a permission and reading the text back yields the permission.
pub proof fn lemma_permission_text_round_trip(p: Permission)
    ensures
        permission_of_text(permission_text(p)) == Some(p),
{
}

/// Parses a permission field.
pub fn parse_permission(s: &str) -> (r: Option<Permission>)
    ensures
        r == permission_of_text(s@),
{
    let n = s.unicode_len();
    if n == 1 {
        let c = s.get_char(0);
        if c == 'N' || c == 'n' {
            Some(Permission::NoAccess)
        } else if c == 'W' || c == 'w' {
            Some(Permission::Write)
        } else if c == 'R' || c == 'r' {
            Some(Permission::Read)
        } else {
            None
        }
    } else if n == 2 {
        let c0 = s.get_char(0);
        let c1 = s.get_char(1);
        if (c0 == 'R' || c0 == 'r') && (c1 == 'W' || c1 == 'w') {
            Some(Permission::ReadWrite)
        } else {
            None
        }
    } else {
        None
    }
}

/// Prints a permission in its wire encoding.
pub fn permission_str(p: Permission) -> (r: &'static str)
    ensures
        r@ == permission_text(p),
{
    proof {
        reveal_strlit("N");
        reveal_strlit("W");
        reveal_strlit("R");
        reveal_strlit("RW");
    }
    let r = match p {
        Permission::NoAccess => "N",
        Permission::Write => "W",
        Permission::Read => "R",
        Permission::ReadWrite => "RW",
    };
    proof {
        assert(r@ =~= permission_text(p));
    }
    r
}

/// The reply to one request: the status code in decimal, then a newline.
pub fn reply_line(r: SystemResult) -> (s: String)
    ensures
        s@ == signed_decimal_digits(result_code(r)) + seq!['\n'],
{
    let mut s = to_signed_decimal(r.code());
    s.append("\n");
    proof {
        reveal_strlit("\n");
        assert(s@ =~= signed_decimal_digits(result_code(r)) + seq!['\n']);
    }
    s
}

} // verus!
