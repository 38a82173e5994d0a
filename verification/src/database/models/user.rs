//! The user record: an id from 0 to 9 and a seven-byte name, stored as eight bytes.
use crate::text::{decimal, hexadecimal, push_char, push_decimal, push_hexadecimal, push_str};
use vstd::prelude::*;

verus! {

/// A user name: seven bytes, without a nul terminator.
pub type Username = [u8; 7];

/// A user. Every field is plain bytes, so a record is written and read as its eight bytes.
#[derive(Clone, Copy)]
pub struct User {
    /// user_id from 0 to 9
    pub user_id: u8,
    /// string bytes without nul terminator
    pub username: Username,
}

/// The name the sample data gives user `user_id`: `user_` and the id in two decimal digits.
pub open spec fn sample_username(user_id: u8) -> Seq<u8> {
    // "user_" followed by the tens and the ones digit
    seq![117u8, 115u8, 101u8, 114u8, 95u8, (48 + (user_id / 10) % 10) as u8, (48 + user_id % 10) as u8]
}

/// The eight bytes a user is stored as: the id, then the name.
pub open spec fn record_bytes(user: User) -> Seq<u8> {
    seq![user.user_id] + user.username@
}

/// How `{:?}` writes an ASCII character inside a quoted string.
pub open spec fn debug_escape_ascii(c: char) -> Seq<char> {
    if c == '"' {
        seq!['\\', '"']
    } else if c == '\\' {
        seq!['\\', '\\']
    } else if c == '\t' {
        seq!['\\', 't']
    } else if c == '\r' {
        seq!['\\', 'r']
    } else if c == '\n' {
        seq!['\\', 'n']
    } else if c == '\0' {
        seq!['\\', '0']
    } else if (c as u32) < 32 || (c as u32) == 127 {
        "\\u{"@ + hexadecimal(c as nat) + seq!['}']
    } else {
        seq![c]
    }
}

/// ASCII bytes as `{:?}` writes their text between the quotes.
pub open spec fn debug_escaped(bytes: Seq<u8>) -> Seq<char>
    decreases bytes.len(),
{
    if bytes.len() == 0 {
        seq![]
    } else {
        debug_escaped(bytes.drop_last()) + debug_escape_ascii(bytes.last() as char)
    }
}

/// The text form of a user: `User { user_id: 3, username: "user_03" }`.
pub open spec fn user_text(user: User) -> Seq<char> {
    "User { user_id: "@ + decimal(user.user_id as nat) + ", username: \""@ + debug_escaped(
        user.username@,
    ) + "\" }"@
}

/// Appends how `{:?}` writes the ASCII byte `b` inside a quoted string.
fn push_debug_escaped(s: &mut String, b: u8)
    requires
        b < 128,
    ensures
        final(s)@ == old(s)@ + debug_escape_ascii(b as char),
{
    let c = b as char;
    if c == '"' {
        push_char(s, '\\');
        push_char(s, '"');
    } else if c == '\\' {
        push_char(s, '\\');
        push_char(s, '\\');
    } else if c == '\t' {
        push_char(s, '\\');
        push_char(s, 't');
    } else if c == '\r' {
        push_char(s, '\\');
        push_char(s, 'r');
    } else if c == '\n' {
        push_char(s, '\\');
        push_char(s, 'n');
    } else if c == '\0' {
        push_char(s, '\\');
        push_char(s, '0');
    } else if b < 32 || b == 127 {
        push_str(s, "\\u{");
        push_hexadecimal(s, b as u128);
        push_char(s, '}');
    } else {
        push_char(s, c);
    }
    assert(s@ =~= old(s)@ + debug_escape_ascii(b as char));
}

impl User {
    /// The bytes a record takes.
    pub const SIZE: usize = 8;

    /// How many users a table holds.
    pub const LEN: usize = 10;

    pub open spec fn spec_user_id_is_valid(user_id: u8) -> bool {
        user_id < 10
    }

    /// An id names one of the `LEN` users.
    #[verifier::when_used_as_spec(spec_user_id_is_valid)]
    pub fn user_id_is_valid(user_id: u8) -> (valid: bool)
        ensures
            valid == (user_id < 10),
    {
        user_id < 10
    }

    /// The sample user `user_id`, named `user_0` and the id's digit.
    pub fn new(user_id: u8) -> (user: Self)
        requires
            Self::user_id_is_valid(user_id),
        ensures
            user.user_id == user_id,
            user.username@ == sample_username(user_id),
    {
        let username: Username = [
            117u8,
            115u8,
            101u8,
            114u8,
            95u8,
            48 + (user_id / 10) % 10,
            48 + user_id % 10,
        ];
        let user = Self { user_id, username };
        assert(user.username@ =~= sample_username(user_id));
        user
    }

    /// The text form of this user, as `{:?}` writes it: `User { user_id: 3, username: "user_03" }`,
    /// the name read as text. The name must be ASCII.
    pub fn debug_text(&self) -> (text: String)
        requires
            forall|i: int| 0 <= i < 7 ==> self.username@[i] < 128,
        ensures
            text@ == user_text(*self),
    {
        let mut text = String::new();
        push_str(&mut text, "User { user_id: ");
        push_decimal(&mut text, self.user_id as u64);
        push_str(&mut text, ", username: \"");
        let ghost prefix = text@;
        let mut i: usize = 0;
        while i < 7
            invariant
                i <= 7,
                forall|j: int| 0 <= j < 7 ==> self.username@[j] < 128,
                text@ == prefix + debug_escaped(self.username@.take(i as int)),
            decreases 7 - i,
        {
            assert(self.username@.take(i + 1).drop_last() =~= self.username@.take(i as int));
            push_debug_escaped(&mut text, self.username[i]);
            i = i + 1;
            assert(text@ =~= prefix + debug_escaped(self.username@.take(i as int)));
        }
        assert(self.username@.take(7) =~= self.username@);
        push_str(&mut text, "\" }");
        assert(text@ =~= user_text(*self));
        text
    }

    /// The record bytes of this user.
    pub fn to_bytes(&self) -> (bytes: [u8; 8])
        ensures
            bytes@ == record_bytes(*self),
    {
        let n = self.username;
        let bytes: [u8; 8] = [self.user_id, n[0], n[1], n[2], n[3], n[4], n[5], n[6]];
        assert(bytes@ =~= record_bytes(*self));
        bytes
    }

    /// The user a record's bytes hold.
    pub fn from_bytes(bytes: &[u8; 8]) -> (user: Self)
        ensures
            record_bytes(user) == bytes@,
    {
        let username: Username = [bytes[1], bytes[2], bytes[3], bytes[4], bytes[5], bytes[6], bytes[7]];
        let user = Self { user_id: bytes[0], username };
        assert(record_bytes(user) =~= bytes@);
        user
    }
}

/// A record holds exactly one user: two users with the same bytes are the same user,
/// and the bytes of a user give back its id and name.
pub proof fn law_record_bytes_identify_user(a: User, b: User)
    ensures
        record_bytes(a) == record_bytes(b) <==> (a.user_id == b.user_id && a.username@ == b.username@),
        record_bytes(a).len() == User::SIZE,
        record_bytes(a)[0] == a.user_id,
        record_bytes(a).subrange(1, 8) == a.username@,
{
    assert(record_bytes(a).subrange(1, 8) =~= a.username@);
    if record_bytes(a) == record_bytes(b) {
        assert(record_bytes(b).subrange(1, 8) =~= b.username@);
        assert(record_bytes(a)[0] == record_bytes(b)[0]);
    }
    if a.user_id == b.user_id && a.username@ == b.username@ {
        assert(record_bytes(a) =~= record_bytes(b));
    }
}

/// Sample names tell users apart: two valid ids get the same name only when they are equal.
pub proof fn law_sample_usernames_distinct(a: u8, b: u8)
    requires
        User::user_id_is_valid(a),
        User::user_id_is_valid(b),
    ensures
        sample_username(a) == sample_username(b) <==> a == b,
{
    if sample_username(a) == sample_username(b) {
        assert(sample_username(a)[6] == sample_username(b)[6]);
    }
}

/// The table every adapter keeps: users by id.
pub open spec fn updated(users: Map<u8, User>, user_id: u8, username: Username) -> Map<u8, User> {
    users.insert(user_id, (User { user_id: users[user_id].user_id, username }))
}

/// What a user table offers: sample data, reading all users or one, and renaming one.
pub trait CrudUserDao {
    /// The users held, by id.
    spec fn users(&self) -> Map<u8, User>;

    /// The table is in a usable state.
    spec fn well_formed(&self) -> bool;

    /// Stores the sample users `0..LEN`, each named by [`User::new`].
    fn insert_sample_data(&mut self)
        requires
            old(self).well_formed(),
        ensures
            final(self).well_formed(),
            forall|id: u8|
                User::user_id_is_valid(id) ==> {
                    &&& #[trigger] final(self).users().contains_key(id)
                    &&& final(self).users()[id].user_id == id
                    &&& final(self).users()[id].username@ == sample_username(id)
                },
    ;

    /// Every user held, each once: the list is the users of the table taken by a sequence of
    /// ids in which every id of the table occurs exactly once.
    fn select_all(&self) -> (users: Vec<User>)
        requires
            self.well_formed(),
        ensures
            exists|ids: Seq<u8>|
                #![trigger ids.to_set()]
                {
                    &&& ids.len() == users@.len()
                    &&& ids.no_duplicates()
                    &&& ids.to_set() == self.users().dom()
                    &&& forall|i: int| 0 <= i < ids.len() ==> users@[i] == self.users()[ids[i]]
                },
            users@.len() == self.users().dom().len(),
    ;

    /// The user with id `user_id`.
    fn find_user_by_id(&self, user_id: u8) -> (user: User)
        requires
            self.well_formed(),
            self.users().contains_key(user_id),
        ensures
            user == self.users()[user_id],
    ;

    /// Renames the user with id `user_id`; every other user stays as it was.
    fn update_username_by_id(&mut self, user_id: u8, username: Username)
        requires
            old(self).well_formed(),
            old(self).users().contains_key(user_id),
        ensures
            final(self).well_formed(),
            final(self).users() == updated(old(self).users(), user_id, username),
    ;
}

/// Reading after a rename: the renamed user has the new name and keeps its id, and every
/// other user reads as before.
pub proof fn law_find_after_update(users: Map<u8, User>, user_id: u8, username: Username, other: u8)
    requires
        users.contains_key(user_id),
    ensures
        updated(users, user_id, username).contains_key(user_id),
        updated(users, user_id, username)[user_id].username == username,
        updated(users, user_id, username)[user_id].user_id == users[user_id].user_id,
        other != user_id ==> updated(users, user_id, username).contains_key(other)
            == users.contains_key(other),
        other != user_id && users.contains_key(other) ==> updated(users, user_id, username)[other]
            == users[other],
        updated(users, user_id, username).dom() == users.dom(),
{
    assert(updated(users, user_id, username).dom() =~= users.dom());
}

} // verus!
