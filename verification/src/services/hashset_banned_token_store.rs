//! The in-memory revocation set.

use vstd::prelude::*;

verus! {

use crate::domain::data_stores::BannedTokenStore;

/// The set of token strings a sequence denotes.
pub open spec fn token_set_of(s: Seq<String>) -> Set<Seq<char>>
    decreases s.len(),
{
    if s.len() == 0 {
        Set::empty()
    } else {
        token_set_of(s.drop_last()).insert(s.last()@)
    }
}

pub proof fn lemma_token_set_contains(s: Seq<String>, k: Seq<char>)
    ensures
        token_set_of(s).contains(k) <==> exists|i: int| 0 <= i < s.len() && s[i]@ == k,
    decreases s.len(),
{
    if s.len() > 0 {
        lemma_token_set_contains(s.drop_last(), k);
        if token_set_of(s).contains(k) && s.last()@ != k {
            let i = choose|i: int| 0 <= i < s.drop_last().len() && s.drop_last()[i]@ == k;
            assert(s[i]@ == k);
        }
        if exists|i: int| 0 <= i < s.len() && s[i]@ == k {
            let i = choose|i: int| 0 <= i < s.len() && s[i]@ == k;
            if i < s.len() - 1 {
                assert(s.drop_last()[i]@ == k);
            }
        }
    }
}

/// The in-memory revocation set: the revoked token strings in insertion
/// order.
#[derive(Default)]
pub struct HashSetBannedTokenStore {
    store: Vec<String>,
}

impl HashSetBannedTokenStore {
    /// An empty set.
    pub fn new() -> (r: Self)
        ensures
            r.tokens() == Set::<Seq<char>>::empty(),
    {
        HashSetBannedTokenStore { store: Vec::new() }
    }
}

impl BannedTokenStore for HashSetBannedTokenStore {
    closed spec fn tokens(&self) -> Set<Seq<char>> {
        token_set_of(self.store@)
    }

    fn add(&mut self, token: String) {
        let ghost s0 = self.store@;
        self.store.push(token);
        proof {
            assert(self.store@.drop_last() =~= s0);
        }
    }

    fn contains(&self, token: &str) -> (r: bool) {
        let n = self.store.len();
        let mut i: usize = 0;
        while i < n
            invariant
                0 <= i <= n,
                n == self.store@.len(),
                forall|k: int| 0 <= k < i ==> self.store@[k]@ != token@,
            decreases n - i,
        {
            if crate::domain::str_eq(self.store[i].as_str(), token) {
                proof {
                    lemma_token_set_contains(self.store@, token@);
                }
                return true;
            }
            i = i + 1;
        }
        proof {
            lemma_token_set_contains(self.store@, token@);
        }
        false
    }
}

} // verus!
