//! The in-memory account store.

use vstd::prelude::*;

verus! {

use crate::domain::{Email, Password, User};
use crate::domain::data_stores::{UserModel, UserStore, UserStoreError};

/// Ghost image of one stored account record.
pub open spec fn model_of(u: User) -> UserModel {
    UserModel { password: u.password@, requires_2fa: u.requires_2fa }
}

/// The map a sequence of account records denotes; later records shadow
/// earlier ones with the same email.
pub open spec fn user_map_of(s: Seq<User>) -> Map<Seq<char>, UserModel>
    decreases s.len(),
{
    if s.len() == 0 {
        Map::empty()
    } else {
        user_map_of(s.drop_last()).insert(s.last().email@, model_of(s.last()))
    }
}

/// No two records share an email.
pub open spec fn distinct_emails(s: Seq<User>) -> bool {
    forall|i: int, j: int| 0 <= i < j < s.len() ==> s[i].email@ != s[j].email@
}

pub proof fn lemma_user_map_contains(s: Seq<User>, k: Seq<char>)
    ensures
        user_map_of(s).contains_key(k) <==> exists|i: int| 0 <= i < s.len() && s[i].email@ == k,
    decreases s.len(),
{
    if s.len() > 0 {
        lemma_user_map_contains(s.drop_last(), k);
        if user_map_of(s).contains_key(k) {
            if s.last().email@ != k {
                let i = choose|i: int| 0 <= i < s.drop_last().len() && s.drop_last()[i].email@ == k;
                assert(s[i].email@ == k);
            }
        }
        if exists|i: int| 0 <= i < s.len() && s[i].email@ == k {
            let i = choose|i: int| 0 <= i < s.len() && s[i].email@ == k;
            if i < s.len() - 1 {
                assert(s.drop_last()[i].email@ == k);
            }
        }
    }
}

pub proof fn lemma_user_map_value(s: Seq<User>, i: int)
    requires
        distinct_emails(s),
        0 <= i < s.len(),
    ensures
        user_map_of(s).contains_key(s[i].email@),
        user_map_of(s)[s[i].email@] == model_of(s[i]),
    decreases s.len(),
{
    lemma_user_map_contains(s, s[i].email@);
    if i < s.len() - 1 {
        assert(s.drop_last()[i] == s[i]);
        lemma_user_map_value(s.drop_last(), i);
        assert(s.last().email@ != s[i].email@);
    }
}

/// The in-memory account store: a flat list of records with pairwise
/// distinct emails.
pub struct HashMapUserStore {
    users: Vec<User>,
}

impl HashMapUserStore {
    /// An empty store.
    pub fn new() -> (r: Self)
        ensures
            r.wf(),
            r.users() == Map::<Seq<char>, UserModel>::empty(),
    {
        HashMapUserStore { users: Vec::new() }
    }

    fn find_index(&self, email: &Email) -> (r: Option<usize>)
        ensures
            match r {
                Some(i) => i < self.users@.len() && self.users@[i as int].email@ == email@,
                None => forall|i: int| 0 <= i < self.users@.len() ==> self.users@[i].email@ != email@,
            },
    {
        let n = self.users.len();
        let mut i: usize = 0;
        while i < n
            invariant
                0 <= i <= n,
                n == self.users@.len(),
                forall|k: int| 0 <= k < i ==> self.users@[k].email@ != email@,
            decreases n - i,
        {
            if self.users[i].email.eq(email) {
                return Some(i);
            }
            i = i + 1;
        }
        None
    }
}

impl UserStore for HashMapUserStore {
    closed spec fn wf(&self) -> bool {
        distinct_emails(self.users@)
    }

    closed spec fn users(&self) -> Map<Seq<char>, UserModel> {
        user_map_of(self.users@)
    }

    fn add_user(&mut self, user: User) -> (r: Result<(), UserStoreError>) {
        let ghost s0 = self.users@;
        match self.find_index(&user.email) {
            Some(_) => {
                proof {
                    lemma_user_map_contains(s0, user.email@);
                }
                Err(UserStoreError::UserAlreadyExists)
            },
            None => {
                proof {
                    lemma_user_map_contains(s0, user.email@);
                }
                let ghost k = user.email@;
                let ghost v = model_of(user);
                self.users.push(user);
                proof {
                    assert(self.users@.drop_last() =~= s0);
                }
                Ok(())
            },
        }
    }

    fn get_user(&self, email: &Email) -> (r: Result<User, UserStoreError>) {
        match self.find_index(email) {
            Some(i) => {
                proof {
                    lemma_user_map_value(self.users@, i as int);
                }
                Ok(self.users[i].clone())
            },
            None => {
                proof {
                    lemma_user_map_contains(self.users@, email@);
                }
                Err(UserStoreError::UserNotFound)
            },
        }
    }

    fn validate_user(&self, email: &Email, password: &Password) -> (r: Result<User, UserStoreError>) {
        let user = match self.get_user(email) {
            Ok(u) => u,
            Err(e) => {
                return Err(e);
            },
        };
        if user.password.eq(password) {
            Ok(User { email: user.email, password: user.password, requires_2fa: user.requires_2fa })
        } else {
            Err(UserStoreError::IncorrectCredentials)
        }
    }
}

} // verus!
