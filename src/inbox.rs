//! A service that keeps the messages other accounts left for it, grouped by
//! sender, and that can leave a message with another such service.
use vstd::prelude::*;
use crate::chat::MailboxError;
use crate::chain::{CallArgs, CallChain, Operation};
use crate::unread::{groups_view, with_message, UnreadBySender};

verus! {

pub struct Inbox {
    unread_messages: UnreadBySender,
}

impl View for Inbox {
    type V = Seq<(Seq<char>, Seq<Seq<char>>)>;

    closed spec fn view(&self) -> Self::V {
        self.unread_messages@
    }
}

impl Default for Inbox {
    fn default() -> (r: Self)
        ensures
            r.wf(),
            r@ == Seq::<(Seq<char>, Seq<Seq<char>>)>::empty(),
    {
        Inbox { unread_messages: UnreadBySender::new() }
    }
}

impl Inbox {
    /// Each sender has one group.
    pub closed spec fn wf(&self) -> bool {
        self.unread_messages.wf()
    }

    /// A one-leg chain that leaves `message` with `receiver_id`, with half of
    /// the prepaid gas attached.
    pub fn send(&self, receiver_id: String, message: String, prepaid_gas: u64) -> (r: CallChain)
        ensures
            r.continue_on_failure,
            r.legs@.len() == 1,
            r.legs@[0].peer == receiver_id,
            r.legs@[0].operation is FunctionCall,
            r.legs@[0].operation->FunctionCall_0@ == "leave_message"@,
            r.legs@[0].operation->FunctionCall_1 == CallArgs::LeaveMessage(message),
            r.legs@[0].balance == 0,
            r.legs@[0].budget == prepaid_gas / 2,
    {
        CallChain::schedule(
            receiver_id,
            Operation::FunctionCall(String::from_str("leave_message"), CallArgs::LeaveMessage(message)),
            0,
            prepaid_gas / 2,
            true,
        )
    }

    /// Every unread message, grouped by sender.
    pub fn get_all_unread_messages(&self) -> (r: Vec<(String, Vec<String>)>)
        ensures
            groups_view(r@) == self@,
    {
        self.unread_messages.groups()
    }

    /// Forgets every unread message, on behalf of `acting_id`, which must be
    /// `owner_id`, the account that owns this mailbox.
    pub fn mark_all_as_read(&mut self, acting_id: &String, owner_id: &String) -> (r: Result<(), MailboxError>)
        ensures
            r is Err <==> acting_id@ != owner_id@,
            r is Err ==> r == Err::<(), MailboxError>(MailboxError::Unauthorized) && final(self)@ == old(self)@
                && final(self).wf() == old(self).wf(),
            r is Ok ==> final(self).wf() && final(self)@ == Seq::<(Seq<char>, Seq<Seq<char>>)>::empty(),
    {
        if *acting_id != *owner_id {
            return Err(MailboxError::Unauthorized);
        }
        self.unread_messages.clear();
        Ok(())
    }

    /// Records `message`, left by the calling account `predecessor_id`.
    pub fn leave_message(&mut self, predecessor_id: String, message: String)
        ensures
            old(self).wf() ==> final(self).wf(),
            final(self)@ == with_message(old(self)@, predecessor_id@, message@),
    {
        self.unread_messages.leave(predecessor_id, message);
    }
}

/// Methods that other services call on this one.
pub trait ExtInbox {
    fn leave_message(&mut self, predecessor_id: String, message: String);
}

impl ExtInbox for Inbox {
    fn leave_message(&mut self, predecessor_id: String, message: String) {
        Inbox::leave_message(self, predecessor_id, message)
    }
}

} // verus!
