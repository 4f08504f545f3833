//! The credential store the verified logic is proved against: an in-memory
//! user table whose invariant keeps usernames unique and hands each row the
//! next identifier. Uniqueness is enforced here, as the store's own
//! constraint, not by the callers.

use crate::models::{str_eq, User};
use vstd::prelude::*;

verus! {

/// A stored row: the identifier, the unique username, and the password
/// material — a per-row random salt and the keyed hash of the password under
/// it. The plaintext password is never kept.
pub struct StoredUser {
    pub id: u64,
    pub username: String,
    pub salt: Vec<u8>,
    pub hash: String,
}

/// The store's answer when a username is already taken.
#[derive(Clone, Copy, Debug, PartialEq, Eq, Structural)]
pub enum StoreError {
    UniqueViolation,
}

/// The user table.
pub struct UserStore {
    users: Vec<StoredUser>,
}

/// The first row carrying `name`, scanned from the front.
pub open spec fn spec_find_username(s: Seq<StoredUser>, name: Seq<char>) -> Option<int>
    decreases s.len(),
{
    if s.len() == 0 {
        None
    } else if s[0].username@ == name {
        Some(0)
    } else {
        match spec_find_username(s.skip(1), name) {
            Option::None => Option::None,
            Option::Some(k) => Option::Some(k + 1),
        }
    }
}

pub proof fn lemma_find_username_absent(s: Seq<StoredUser>, name: Seq<char>)
    requires
        forall|m: int| 0 <= m < s.len() ==> (#[trigger] s[m].username)@ != name,
    ensures
        spec_find_username(s, name) is None,
    decreases s.len(),
{
    if s.len() > 0 {
        lemma_find_username_absent(s.skip(1), name);
    }
}

pub proof fn lemma_find_username_at(s: Seq<StoredUser>, name: Seq<char>, i: int)
    requires
        0 <= i < s.len(),
        s[i].username@ == name,
        forall|m: int| 0 <= m < i ==> (#[trigger] s[m].username)@ != name,
    ensures
        spec_find_username(s, name) == Some(i),
    decreases s.len(),
{
    if i > 0 {
        lemma_find_username_at(s.skip(1), name, i - 1);
    }
}

/// A row carrying the name makes the search succeed.
pub proof fn lemma_find_username_some(s: Seq<StoredUser>, name: Seq<char>, i: int)
    requires
        0 <= i < s.len(),
        s[i].username@ == name,
    ensures
        spec_find_username(s, name) is Some,
    decreases s.len(),
{
    if s[0].username@ != name {
        lemma_find_username_some(s.skip(1), name, i - 1);
    }
}

/// A found index is in range and carries the name.
pub proof fn lemma_find_username_found(s: Seq<StoredUser>, name: Seq<char>)
    requires
        spec_find_username(s, name) is Some,
    ensures
        0 <= spec_find_username(s, name).unwrap() < s.len(),
        s[spec_find_username(s, name).unwrap()].username@ == name,
    decreases s.len(),
{
    if s.len() > 0 && s[0].username@ != name {
        lemma_find_username_found(s.skip(1), name);
    }
}

/// Appending a row with a fresh name makes it the one the name finds.
pub proof fn lemma_find_username_push(s: Seq<StoredUser>, u: StoredUser)
    requires
        spec_find_username(s, u.username@) is None,
    ensures
        spec_find_username(s.push(u), u.username@) == Some(s.len() as int),
    decreases s.len(),
{
    if s.len() == 0 {
        assert(s.push(u)[0] == u);
    } else {
        lemma_find_username_push(s.skip(1), u);
        assert(s.push(u).skip(1) =~= s.skip(1).push(u));
    }
}

impl View for UserStore {
    type V = Seq<StoredUser>;

    closed spec fn view(&self) -> Seq<StoredUser> {
        self.users@
    }
}

impl UserStore {
    /// The store's invariant: row `k` carries identifier `k`, and no
    /// username appears twice.
    pub open spec fn wf(&self) -> bool {
        &&& forall|k: int| 0 <= k < self@.len() ==> (#[trigger] self@[k].id) == k
        &&& forall|a: int, b: int|
            0 <= a < b < self@.len() ==> (#[trigger] self@[a].username)@ != (
            #[trigger] self@[b].username)@
    }

    /// An empty store.
    pub fn new() -> (r: UserStore)
        ensures
            r@ == Seq::<StoredUser>::empty(),
            r.wf(),
    {
        let r = UserStore { users: Vec::new() };
        proof {
            assert(r@ =~= Seq::<StoredUser>::empty());
        }
        r
    }

    pub fn len(&self) -> (n: usize)
        ensures
            n == self@.len(),
    {
        self.users.len()
    }

    /// The row holding `username`, if any.
    pub fn find_by_username(&self, username: &str) -> (r: Option<&StoredUser>)
        ensures
            match r {
                Some(u) => spec_find_username(self@, username@) is Some && *u == self@[spec_find_username(self@, username@).unwrap()],
                None => spec_find_username(self@, username@) is None,
            },
    {
        let n = self.users.len();
        let mut i: usize = 0;
        while i < n
            invariant
                0 <= i <= n == self@.len(),
                forall|m: int| 0 <= m < i ==> (#[trigger] self@[m].username)@ != username@,
            decreases n - i,
        {
            if str_eq(self.users[i].username.as_str(), username) {
                proof {
                    lemma_find_username_at(self@, username@, i as int);
                }
                return Some(&self.users[i]);
            }
            i += 1;
        }
        proof {
            lemma_find_username_absent(self@, username@);
        }
        None
    }

    /// The user with identifier `id`: in a well-formed store that is row
    /// `id`, present exactly when `id` is below the row count.
    pub fn find_by_id(&self, id: u64) -> (r: Option<User>)
        requires
            self.wf(),
        ensures
            match r {
                Some(u) => id < self@.len() && u.id == id && u.username@ == self@[id as int].username@,
                None => id >= self@.len(),
            },
    {
        let n = self.users.len();
        if id < n as u64 {
            let row = &self.users[id as usize];
            Some(User { id, username: row.username.clone() })
        } else {
            None
        }
    }

    /// Appends a new user unless the username is taken; the new identifier
    /// is the row count. Uniqueness is this store's own constraint: the
    /// caller need not check first.
    pub fn insert_user(&mut self, username: &str, salt: Vec<u8>, hash: String) -> (r: Result<
        u64,
        StoreError,
    >)
        requires
            old(self).wf(),
        ensures
            final(self).wf(),
            match r {
                Ok(id) => {
                    &&& spec_find_username(old(self)@, username@) is None
                    &&& id == old(self)@.len()
                    &&& final(self)@.len() == old(self)@.len() + 1
                    &&& final(self)@.subrange(0, old(self)@.len() as int) == old(self)@
                    &&& final(self)@.last().id == id
                    &&& final(self)@.last().username@ == username@
                    &&& final(self)@.last().salt == salt
                    &&& final(self)@.last().hash == hash
                },
                Err(e) => {
                    &&& e == StoreError::UniqueViolation
                    &&& spec_find_username(old(self)@, username@) is Some
                    &&& final(self)@ == old(self)@
                },
            },
    {
        if self.find_by_username(username).is_some() {
            return Err(StoreError::UniqueViolation);
        }
        let id = self.users.len() as u64;
        let row = StoredUser { id, username: username.to_owned(), salt, hash };
        self.users.push(row);
        proof {
            assert(final(self)@.subrange(0, old(self)@.len() as int) =~= old(self)@);
            assert forall|a: int, b: int|
                0 <= a < b < final(self)@.len() implies (#[trigger] final(self)@[a].username)@ != (
            #[trigger] final(self)@[b].username)@ by {
                if b == final(self)@.len() - 1 {
                    if old(self)@[a].username@ == username@ {
                        lemma_find_username_some(old(self)@, username@, a);
                    }
                }
            }
        }
        Ok(id)
    }
}

} // verus!
