//! The notification collaborator that delivers a two-factor code out of
//! band.

use vstd::prelude::*;

verus! {

use crate::domain::Email;

/// Ghost image of one delivered message.
pub ghost struct SentMail {
    pub recipient: Seq<char>,
    pub subject: Seq<char>,
    pub body: Seq<char>,
}

/// A sender of notification messages.
///
/// Delivery may always fail; nothing here promises success. What is promised
/// is that a successful send appends exactly the given message to the ghost
/// history `sent`, and a failed one leaves it alone.
pub trait EmailClient: Sized {
    spec fn sent(&self) -> Seq<SentMail>;

    fn send_email(&mut self, recipient: &Email, subject: &str, content: &str) -> (r: Result<
        (),
        String,
    >)
        ensures
            r is Ok ==> final(self).sent() == old(self).sent().push(
                (SentMail { recipient: recipient@, subject: subject@, body: content@ }),
            ),
            r is Err ==> final(self).sent() == old(self).sent(),
    ;
}

} // verus!
