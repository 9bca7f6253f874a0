//! A notification sender that records what it is asked to deliver instead
//! of reaching a mail system.

use vstd::prelude::*;

verus! {

use crate::domain::Email;
use crate::domain::email_client::{EmailClient, SentMail};

/// One recorded delivery.
pub struct SentRecord {
    pub recipient: String,
    pub subject: String,
    pub body: String,
}

spec fn record_view(r: SentRecord) -> SentMail {
    SentMail { recipient: r.recipient@, subject: r.subject@, body: r.body@ }
}

/// A sender whose deliveries always succeed and are kept in memory.
#[derive(Default)]
pub struct MockEmailClient {
    sent: Vec<SentRecord>,
}

impl MockEmailClient {
    /// A client with an empty delivery record.
    pub fn new() -> (r: Self)
        ensures
            r.sent() == Seq::<SentMail>::empty(),
    {
        let r = MockEmailClient { sent: Vec::new() };
        proof {
            assert(r.sent() =~= Seq::<SentMail>::empty());
        }
        r
    }

    /// How many messages have been recorded.
    pub fn sent_count(&self) -> (r: usize)
        ensures
            r == self.sent().len(),
    {
        self.sent.len()
    }

    /// The body of the most recently recorded message.
    pub fn last_body(&self) -> (r: Option<&String>)
        ensures
            match r {
                Some(b) => self.sent().len() > 0 && b@ == self.sent().last().body,
                None => self.sent().len() == 0,
            },
    {
        if self.sent.len() == 0 {
            None
        } else {
            Some(&self.sent[self.sent.len() - 1].body)
        }
    }
}

impl EmailClient for MockEmailClient {
    closed spec fn sent(&self) -> Seq<SentMail> {
        self.sent@.map(|i: int, r: SentRecord| record_view(r))
    }

    fn send_email(&mut self, recipient: &Email, subject: &str, content: &str) -> (r: Result<
        (),
        String,
    >) {
        let record = SentRecord {
            recipient: recipient.as_str().to_owned(),
            subject: subject.to_owned(),
            body: content.to_owned(),
        };
        let ghost rv = record_view(record);
        self.sent.push(record);
        proof {
            assert(self.sent() =~= old(self).sent().push(rv));
        }
        Ok(())
    }
}

} // verus!
