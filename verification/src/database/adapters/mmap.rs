//! A user table in one shared memory region of `LEN` records, indexed by user id.
use crate::database::models::user::{sample_username, updated, CrudUserDao, User, Username};
use vstd::prelude::*;

verus! {

/// The region a shared anonymous mapping gives: `LEN` records, zero-filled at first.
pub struct MmapDb {
    users: Vec<User>,
}

impl View for MmapDb {
    type V = Seq<User>;

    closed spec fn view(&self) -> Seq<User> {
        self.users@
    }
}

impl MmapDb {
    /// The bytes the mapping spans.
    pub const MAPPED_BYTES: usize = 80;

    /// A fresh region: `LEN` records, every byte zero.
    pub fn new() -> (db: Self)
        ensures
            db.well_formed(),
            forall|i: int|
                0 <= i < User::LEN ==> (#[trigger] db@[i]).user_id == 0 && db@[i].username@
                    == seq![0u8, 0u8, 0u8, 0u8, 0u8, 0u8, 0u8],
    {
        let mut users: Vec<User> = Vec::new();
        let mut i: usize = 0;
        while i < User::LEN
            invariant
                i <= User::LEN,
                users@.len() == i,
                forall|j: int|
                    0 <= j < i ==> (#[trigger] users@[j]).user_id == 0 && users@[j].username@
                        == seq![0u8, 0u8, 0u8, 0u8, 0u8, 0u8, 0u8],
            decreases User::LEN - i,
        {
            let zero = User { user_id: 0, username: [0u8; 7] };
            assert(zero.username@ =~= seq![0u8, 0u8, 0u8, 0u8, 0u8, 0u8, 0u8]);
            users.push(zero);
            i = i + 1;
        }
        MmapDb { users }
    }
}

impl MmapDb {
    /// The records in region order are the users taken by the ids `0..LEN`, each once.
    proof fn lemma_listed_once(&self, users: Seq<User>)
        requires
            self.well_formed(),
            users == self@,
        ensures
            exists|ids: Seq<u8>|
                #![trigger ids.to_set()]
                {
                    &&& ids.len() == users.len()
                    &&& ids.no_duplicates()
                    &&& ids.to_set() == self.users().dom()
                    &&& forall|i: int| 0 <= i < ids.len() ==> users[i] == self.users()[ids[i]]
                },
            users.len() == self.users().dom().len(),
    {
        let ids = Seq::new(User::LEN as nat, |i: int| i as u8);
        assert forall|id: u8| ids.contains(id) <==> self.users().dom().contains(id) by {
            if id < User::LEN {
                assert(ids[id as int] == id);
            }
        }
        assert(ids.to_set() =~= self.users().dom());
        ids.unique_seq_to_set();
        assert(forall|i: int| 0 <= i < ids.len() ==> users[i] == self.users()[ids[i]]);
        assert(ids.len() == users.len());
    }
}

impl CrudUserDao for MmapDb {
    open spec fn users(&self) -> Map<u8, User> {
        Map::new(|id: u8| id < User::LEN, |id: u8| self@[id as int])
    }

    open spec fn well_formed(&self) -> bool {
        self@.len() == User::LEN
    }

    fn insert_sample_data(&mut self)
        ensures
            forall|i: int|
                0 <= i < User::LEN ==> (#[trigger] final(self)@[i]).user_id == i
                    && final(self)@[i].username@ == sample_username(i as u8),
    {
        let mut user_id: usize = 0;
        while user_id < User::LEN
            invariant
                user_id <= User::LEN,
                self@.len() == User::LEN,
                forall|j: int|
                    0 <= j < user_id ==> (#[trigger] self@[j]).user_id == j && self@[j].username@
                        == sample_username(j as u8),
            decreases User::LEN - user_id,
        {
            let user = User::new(user_id as u8);
            self.users.set(user_id, user);
            user_id = user_id + 1;
        }
        assert forall|id: u8| User::user_id_is_valid(id) implies {
            &&& #[trigger] self.users().contains_key(id)
            &&& self.users()[id].user_id == id
            &&& self.users()[id].username@ == sample_username(id)
        } by {
            assert(self@[id as int].user_id == id);
        }
    }

    fn select_all(&self) -> (users: Vec<User>)
        ensures
            users@ == self@,
    {
        let users = self.users.clone();
        proof {
            self.lemma_listed_once(users@);
        }
        users
    }

    fn find_user_by_id(&self, user_id: u8) -> (user: User) {
        self.users[user_id as usize]
    }

    fn update_username_by_id(&mut self, user_id: u8, username: Username) {
        let ghost before = self.users();
        let mut user = self.users[user_id as usize];
        user.username = username;
        self.users.set(user_id as usize, user);
        assert(self.users() =~= updated(before, user_id, username));
    }
}

} // verus!
