//! The SQL the MySQL adapter sends and the rows it reads back.
use crate::database::models::user::{User, Username};
use crate::system_call::utf8_string;
use crate::text::{chars_of, decimal, push_decimal, push_str};
use vstd::prelude::*;
use crate::number::{parse_unsigned, parse_unsigned_chars};
use crate::split::{find_char, first_index};
use vstd::utf8::{decode_utf8, encode_utf8, valid_utf8};

verus! {

/// `pat` occurs in `s`.
pub open spec fn contains_text(s: Seq<char>, pat: Seq<char>) -> bool {
    exists|i: int| 0 <= i && i + pat.len() <= s.len() && #[trigger] s.subrange(i, i + pat.len()) == pat
}

/// `pat` occurs in `s` at position `i`.
fn occurs_at(s: &[char], pat: &[char], i: usize) -> (b: bool)
    requires
        i + pat@.len() <= s@.len(),
    ensures
        b == (s@.subrange(i as int, i + pat@.len()) == pat@),
{
    let m = pat.len();
    let n = s.len();
    let mut j: usize = 0;
    while j < m
        invariant
            j <= m,
            m == pat@.len(),
            n == s@.len(),
            i + m <= n,
            s@.subrange(i as int, i + j) == pat@.take(j as int),
        decreases m - j,
    {
        if s[i + j] != pat[j] {
            assert(s@.subrange(i as int, i + m)[j as int] != pat@[j as int]);
            return false;
        }
        j = j + 1;
        assert(s@.subrange(i as int, i + j) =~= pat@.take(j as int));
    }
    assert(pat@.take(m as int) =~= pat@);
    true
}

/// Whether `pat` occurs in `s` (`str::contains`).
pub fn contains_chars(s: &[char], pat: &[char]) -> (b: bool)
    ensures
        b == contains_text(s@, pat@),
{
    let n = s.len();
    let m = pat.len();
    if m > n {
        return false;
    }
    if m == 0 {
        assert(s@.subrange(0, 0 + pat@.len() as int) =~= pat@);
        return true;
    }
    let mut i: usize = 0;
    while i <= n - m
        invariant
            1 <= m <= n,
            i <= n - m + 1,
            n == s@.len(),
            m == pat@.len(),
            forall|k: int| 0 <= k < i ==> #[trigger] s@.subrange(k, k + m) != pat@,
        decreases n - m + 1 - i,
    {
        if occurs_at(s, pat, i) {
            return true;
        }
        i = i + 1;
    }
    false
}

/// only select statement has return value
pub fn is_select_statement(sql: &str) -> (select: bool)
    ensures
        select == (contains_text(sql@, "select"@) || contains_text(sql@, "SELECT"@)),
{
    let s = chars_of(sql);
    let lower = chars_of("select");
    let upper = chars_of("SELECT");
    contains_chars(&s, &lower) || contains_chars(&s, &upper)
}

/// The text of a user name, whose bytes must be UTF-8.
pub fn username_text(username: &Username) -> (text: String)
    requires
        valid_utf8(username@),
    ensures
        text@ == decode_utf8(username@),
{
    let mut bytes: Vec<u8> = Vec::new();
    let mut i: usize = 0;
    while i < 7
        invariant
            i <= 7,
            bytes@ == username@.take(i as int),
        decreases 7 - i,
    {
        bytes.push(username[i]);
        i = i + 1;
        assert(bytes@ =~= username@.take(i as int));
    }
    assert(username@.take(7) =~= username@);
    utf8_string(bytes)
}

/// `insert into users(user_id, username) values(<id>, '<name>')`
pub fn insert_user_sql(user: &User) -> (sql: String)
    requires
        valid_utf8(user.username@),
    ensures
        sql@ == "insert into users(user_id, username) values("@ + decimal(user.user_id as nat)
            + ", '"@ + decode_utf8(user.username@) + "')"@,
{
    let mut sql = String::new();
    push_str(&mut sql, "insert into users(user_id, username) values(");
    push_decimal(&mut sql, user.user_id as u64);
    push_str(&mut sql, ", '");
    let name = username_text(&user.username);
    push_str(&mut sql, name.as_str());
    push_str(&mut sql, "')");
    assert(sql@ =~= "insert into users(user_id, username) values("@ + decimal(user.user_id as nat)
        + ", '"@ + decode_utf8(user.username@) + "')"@);
    sql
}

/// `select user_id, username from users where user_id=<id>`
pub fn find_user_by_id_sql(user_id: u8) -> (sql: String)
    ensures
        sql@ == "select user_id, username from users where user_id="@ + decimal(user_id as nat),
{
    let mut sql = String::new();
    push_str(&mut sql, "select user_id, username from users where user_id=");
    push_decimal(&mut sql, user_id as u64);
    sql
}

/// `update users set username='<name>' where user_id=<id>`
pub fn update_username_sql(user_id: u8, username: &Username) -> (sql: String)
    requires
        valid_utf8(username@),
    ensures
        sql@ == "update users set username='"@ + decode_utf8(username@) + "' where user_id="@
            + decimal(user_id as nat),
{
    let mut sql = String::new();
    push_str(&mut sql, "update users set username='");
    let name = username_text(username);
    push_str(&mut sql, name.as_str());
    push_str(&mut sql, "' where user_id=");
    push_decimal(&mut sql, user_id as u64);
    assert(sql@ =~= "update users set username='"@ + decode_utf8(username@) + "' where user_id="@
        + decimal(user_id as nat));
    sql
}

/// The fields of a row joined with commas.
pub open spec fn comma_joined(fields: Seq<Seq<u8>>) -> Seq<u8>
    decreases fields.len(),
{
    if fields.len() <= 1 {
        if fields.len() == 0 {
            seq![]
        } else {
            fields[0]
        }
    } else {
        comma_joined(fields.drop_last()) + seq![44u8] + fields.last()
    }
}

/// A row as text: its fields joined with commas (csv format), or nothing for a row
/// without fields.
pub fn csv_row(fields: &Vec<Vec<u8>>) -> (row: Option<Vec<u8>>)
    ensures
        row is None <==> fields@.len() == 0,
        row matches Some(r) ==> r@ == comma_joined(fields@.map_values(|f: Vec<u8>| f@)),
{
    let n = fields.len();
    if n == 0 {
        return None;
    }
    let ghost all = fields@.map_values(|f: Vec<u8>| f@);
    let mut row: Vec<u8> = Vec::new();
    let mut i: usize = 0;
    while i < n
        invariant
            i <= n,
            n == fields@.len(),
            n > 0,
            all == fields@.map_values(|f: Vec<u8>| f@),
            i > 0 ==> row@ == comma_joined(all.take(i as int)),
            i == 0 ==> row@.len() == 0,
        decreases n - i,
    {
        assert(all.take(i + 1).drop_last() =~= all.take(i as int));
        if i > 0 {
            row.push(44u8);
        }
        let field = &fields[i];
        let mut j: usize = 0;
        let ghost before = row@;
        while j < field.len()
            invariant
                j <= field@.len(),
                row@ == before + field@.take(j as int),
            decreases field@.len() - j,
        {
            row.push(field[j]);
            j = j + 1;
            assert(row@ =~= before + field@.take(j as int));
        }
        assert(field@.take(field@.len() as int) =~= field@);
        assert(all[i as int] == field@);
        i = i + 1;
        proof {
            if i == 1 {
                assert(all.take(1) =~= seq![field@]);
                assert(row@ =~= field@);
            } else {
                assert(row@ =~= comma_joined(all.take(i as int)));
            }
        }
    }
    assert(all.take(n as int) =~= all);
    Some(row)
}

/// The id field of a row `id,name`: the text before its first comma.
pub open spec fn row_id_text(row: Seq<char>) -> Seq<char> {
    row.take(first_index(row, ','))
}

/// The name field of a row `id,name`: the text after its first comma.
pub open spec fn row_name_text(row: Seq<char>) -> Seq<char> {
    row.skip(first_index(row, ',') + 1)
}

/// A row of `select user_id, username` reads as a user: it has a comma, the text before it
/// is a `u8` as `u8::from_str` reads it, and the text after it takes seven bytes in UTF-8.
pub open spec fn is_user_row(row: Seq<char>) -> bool {
    &&& first_index(row, ',') >= 0
    &&& parse_unsigned(row_id_text(row), 10, 255) is Some
    &&& encode_utf8(row_name_text(row)).len() == 7
}

/// Reads a row `id,name` of the `users` table, as the adapter's `query` gets it back, as a
/// user: the id in decimal, the name as its seven UTF-8 bytes. `None` for any other row.
pub fn parse_user_row(row: &str) -> (user: Option<User>)
    ensures
        user is Some <==> is_user_row(row@),
        user matches Some(u) ==> {
            &&& u.user_id == parse_unsigned(row_id_text(row@), 10, 255).unwrap()
            &&& u.username@ == encode_utf8(row_name_text(row@))
        },
{
    let chars = chars_of(row);
    let comma = match find_char(&chars, ',') {
        None => return None,
        Some(k) => k,
    };
    assert(chars@.subrange(0, comma as int) =~= row_id_text(row@));
    let user_id = match parse_unsigned_chars(&chars[0..comma], 10, 255) {
        None => return None,
        Some(id) => id,
    };
    let name = row.substring_char(comma + 1, row.unicode_len());
    assert(name@ =~= row_name_text(row@));
    let bytes = name.as_bytes_vec();
    if bytes.len() != 7 {
        return None;
    }
    let username: Username = [bytes[0], bytes[1], bytes[2], bytes[3], bytes[4], bytes[5], bytes[6]];
    assert(username@ =~= bytes@);
    Some(User { user_id: user_id as u8, username })
}

} // verus!
