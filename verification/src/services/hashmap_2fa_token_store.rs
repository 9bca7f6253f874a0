//! The in-memory two-factor challenge store.

use vstd::prelude::*;

verus! {

use crate::domain::Email;
use crate::domain::data_stores::{
    ChallengeModel, LoginAttemptId, TwoFACode, TwoFACodeStore, TwoFACodeStoreError,
};

/// One outstanding challenge: the email it belongs to, the attempt
/// identifier handed back to the client, and the one-time code.
struct ChallengeEntry {
    email: Email,
    attempt_id: LoginAttemptId,
    code: TwoFACode,
}

spec fn entry_model(e: ChallengeEntry) -> ChallengeModel {
    ChallengeModel { attempt_id: e.attempt_id@, code: e.code@ }
}

spec fn challenge_map_of(s: Seq<ChallengeEntry>) -> Map<Seq<char>, ChallengeModel>
    decreases s.len(),
{
    if s.len() == 0 {
        Map::empty()
    } else {
        challenge_map_of(s.drop_last()).insert(s.last().email@, entry_model(s.last()))
    }
}

spec fn distinct_entry_emails(s: Seq<ChallengeEntry>) -> bool {
    forall|i: int, j: int| 0 <= i < j < s.len() ==> s[i].email@ != s[j].email@
}

proof fn lemma_challenge_map_contains(s: Seq<ChallengeEntry>, k: Seq<char>)
    ensures
        challenge_map_of(s).contains_key(k) <==> exists|i: int| 0 <= i < s.len() && s[i].email@ == k,
    decreases s.len(),
{
    if s.len() > 0 {
        lemma_challenge_map_contains(s.drop_last(), k);
        if challenge_map_of(s).contains_key(k) && s.last().email@ != k {
            let i = choose|i: int| 0 <= i < s.drop_last().len() && s.drop_last()[i].email@ == k;
            assert(s[i].email@ == k);
        }
        if exists|i: int| 0 <= i < s.len() && s[i].email@ == k {
            let i = choose|i: int| 0 <= i < s.len() && s[i].email@ == k;
            if i < s.len() - 1 {
                assert(s.drop_last()[i].email@ == k);
            }
        }
    }
}

proof fn lemma_challenge_map_value(s: Seq<ChallengeEntry>, i: int)
    requires
        distinct_entry_emails(s),
        0 <= i < s.len(),
    ensures
        challenge_map_of(s).contains_key(s[i].email@),
        challenge_map_of(s)[s[i].email@] == entry_model(s[i]),
    decreases s.len(),
{
    lemma_challenge_map_contains(s, s[i].email@);
    if i < s.len() - 1 {
        assert(s.drop_last()[i] == s[i]);
        lemma_challenge_map_value(s.drop_last(), i);
        assert(s.last().email@ != s[i].email@);
    }
}

/// Removing the record at index `i` removes exactly its key from the map.
proof fn lemma_challenge_map_remove(s: Seq<ChallengeEntry>, i: int)
    requires
        distinct_entry_emails(s),
        0 <= i < s.len(),
    ensures
        challenge_map_of(s.remove(i)) == challenge_map_of(s).remove(s[i].email@),
    decreases s.len(),
{
    let k = s[i].email@;
    if i == s.len() - 1 {
        assert(s.remove(i) =~= s.drop_last());
        lemma_challenge_map_contains(s.drop_last(), k);
        assert(!challenge_map_of(s.drop_last()).contains_key(k));
        assert(challenge_map_of(s.drop_last()).insert(k, entry_model(s.last())).remove(k)
            =~= challenge_map_of(s.drop_last()));
    } else {
        assert(s.drop_last()[i] == s[i]);
        lemma_challenge_map_remove(s.drop_last(), i);
        assert(s.remove(i).drop_last() =~= s.drop_last().remove(i));
        assert(s.remove(i).last() == s.last());
        assert(s.last().email@ != k);
        assert(challenge_map_of(s.drop_last()).remove(k).insert(s.last().email@, entry_model(s.last()))
            =~= challenge_map_of(s.drop_last()).insert(s.last().email@, entry_model(s.last())).remove(k));
    }
}

/// The in-memory challenge store: a flat list of records with pairwise
/// distinct emails.
#[derive(Default)]
pub struct HashMap2FaTokenStore {
    codes: Vec<ChallengeEntry>,
}

impl HashMap2FaTokenStore {
    /// An empty store.
    pub fn new() -> (r: Self)
        ensures
            r.wf(),
            r.codes() == Map::<Seq<char>, ChallengeModel>::empty(),
    {
        HashMap2FaTokenStore { codes: Vec::new() }
    }

    fn find_index(&self, email: &Email) -> (r: Option<usize>)
        ensures
            match r {
                Some(i) => i < self.codes@.len() && self.codes@[i as int].email@ == email@,
                None => forall|i: int| 0 <= i < self.codes@.len() ==> self.codes@[i].email@ != email@,
            },
    {
        let n = self.codes.len();
        let mut i: usize = 0;
        while i < n
            invariant
                0 <= i <= n,
                n == self.codes@.len(),
                forall|k: int| 0 <= k < i ==> self.codes@[k].email@ != email@,
            decreases n - i,
        {
            if self.codes[i].email.eq(email) {
                return Some(i);
            }
            i = i + 1;
        }
        None
    }
}

impl TwoFACodeStore for HashMap2FaTokenStore {
    closed spec fn wf(&self) -> bool {
        distinct_entry_emails(self.codes@)
    }

    closed spec fn codes(&self) -> Map<Seq<char>, ChallengeModel> {
        challenge_map_of(self.codes@)
    }

    fn add_code(&mut self, email: Email, login_attempt_id: LoginAttemptId, code: TwoFACode) -> (r: Result<
        (),
        TwoFACodeStoreError,
    >) {
        let ghost k = email@;
        if let Some(i) = self.find_index(&email) {
            proof {
                lemma_challenge_map_remove(self.codes@, i as int);
            }
            let ghost s_before = self.codes@;
            self.codes.remove(i);
            proof {
                assert forall|p: int, q: int|
                    0 <= p < q < self.codes@.len() implies self.codes@[p].email@
                    != self.codes@[q].email@ by {
                    assert(self.codes@[p] == if p < i { s_before[p] } else { s_before[p + 1] });
                    assert(self.codes@[q] == if q < i { s_before[q] } else { s_before[q + 1] });
                }
                lemma_challenge_map_contains(self.codes@, k);
            }
        } else {
            proof {
                lemma_challenge_map_contains(self.codes@, k);
            }
        }
        // here the store holds no challenge for the email
        let ghost s0 = self.codes@;
        let ghost m0 = challenge_map_of(s0);
        let entry = ChallengeEntry { email, attempt_id: login_attempt_id, code };
        let ghost ev = entry_model(entry);
        self.codes.push(entry);
        proof {
            assert(self.codes@.drop_last() =~= s0);
            assert(challenge_map_of(self.codes@) =~= m0.insert(k, ev));
            // with the key absent before, removing then inserting it equals
            // inserting over the original map
            assert(challenge_map_of(self.codes@) =~= challenge_map_of(old(self).codes@).insert(
                k,
                ev,
            ));
        }
        Ok(())
    }

    fn remove_code(&mut self, email: &Email) -> (r: Result<(), TwoFACodeStoreError>) {
        match self.find_index(email) {
            Some(i) => {
                proof {
                    lemma_challenge_map_remove(self.codes@, i as int);
                }
                let ghost s_before = self.codes@;
                self.codes.remove(i);
                proof {
                    assert forall|p: int, q: int|
                        0 <= p < q < self.codes@.len() implies self.codes@[p].email@
                        != self.codes@[q].email@ by {
                        assert(self.codes@[p] == if p < i { s_before[p] } else { s_before[p + 1] });
                        assert(self.codes@[q] == if q < i { s_before[q] } else { s_before[q + 1] });
                    }
                }
                Ok(())
            },
            None => {
                proof {
                    lemma_challenge_map_contains(self.codes@, email@);
                    assert(challenge_map_of(self.codes@).remove(email@) =~= challenge_map_of(
                        self.codes@,
                    ));
                }
                Ok(())
            },
        }
    }

    fn get_code(&self, email: &Email) -> (r: Result<(LoginAttemptId, TwoFACode), TwoFACodeStoreError>) {
        match self.find_index(email) {
            Some(i) => {
                proof {
                    lemma_challenge_map_value(self.codes@, i as int);
                }
                Ok((self.codes[i].attempt_id.clone(), self.codes[i].code.clone()))
            },
            None => {
                proof {
                    lemma_challenge_map_contains(self.codes@, email@);
                }
                Err(TwoFACodeStoreError::LoginAttemptIdNotFound)
            },
        }
    }
}

} // verus!
