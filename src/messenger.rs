//! A service that keeps the messages other accounts left for it, grouped by
//! sender, and that relays a message to another such service and then asks
//! that service for what it holds from this one.
use vstd::prelude::*;
use crate::chat::MailboxError;
use crate::chain::{budget_sum, CallArgs, CallChain, Leg, Operation};
use crate::chat::{pairs_view, MessageView};
use crate::unread::{groups_view, lemma_with_message, messages_from, strings_view, with_message, UnreadBySender};

verus! {

/// Each of `msgs` paired with the sender `s`.
pub open spec fn tagged(s: Seq<char>, msgs: Seq<Seq<char>>) -> Seq<MessageView> {
    msgs.map_values(|m: Seq<char>| (s, m))
}

pub struct Messenger {
    unread_messages: UnreadBySender,
}

impl View for Messenger {
    type V = Seq<(Seq<char>, Seq<Seq<char>>)>;

    closed spec fn view(&self) -> Self::V {
        self.unread_messages@
    }
}

impl Default for Messenger {
    fn default() -> (r: Self)
        ensures
            r.wf(),
            r@ == Seq::<(Seq<char>, Seq<Seq<char>>)>::empty(),
    {
        Messenger { unread_messages: UnreadBySender::new() }
    }
}

impl Messenger {
    /// Each sender has one group.
    pub closed spec fn wf(&self) -> bool {
        self.unread_messages.wf()
    }

    /// A two-leg chain on `receiver_id`: leave `message`, then, once that has
    /// resolved, fetch the messages the receiver holds from `this_account`.
    /// Each leg carries a third of the prepaid gas; the fetch runs even if the
    /// delivery failed, so the caller always sees the receiver's state.
    pub fn send(&self, receiver_id: String, message: String, prepaid_gas: u64, this_account: String) -> (r: CallChain)
        ensures
            r.continue_on_failure,
            r.legs@.len() == 2,
            r.legs@[0].peer == receiver_id,
            r.legs@[0].operation is FunctionCall,
            r.legs@[0].operation->FunctionCall_0@ == "leave_message"@,
            r.legs@[0].operation->FunctionCall_1 == CallArgs::LeaveMessage(message),
            r.legs@[0].balance == 0,
            r.legs@[0].budget == prepaid_gas / 3,
            r.legs@[1].peer == receiver_id,
            r.legs@[1].operation is FunctionCall,
            r.legs@[1].operation->FunctionCall_0@ == "get_unread_messages"@,
            r.legs@[1].operation->FunctionCall_1 == CallArgs::GetUnreadMessages(this_account),
            r.legs@[1].balance == 0,
            r.legs@[1].budget == prepaid_gas / 3,
            budget_sum(r.legs@) <= prepaid_gas,
    {
        let peer = receiver_id.clone();
        let c = CallChain::schedule(
            receiver_id,
            Operation::FunctionCall(String::from_str("leave_message"), CallArgs::LeaveMessage(message)),
            0,
            prepaid_gas / 3,
            true,
        );
        let c = c.chain(
            peer,
            Operation::FunctionCall(String::from_str("get_unread_messages"), CallArgs::GetUnreadMessages(this_account)),
            0,
            prepaid_gas / 3,
        );
        proof {
            reveal_with_fuel(budget_sum, 3);
            assert(c.legs@.drop_last().drop_last() =~= Seq::<Leg>::empty());
            assert(budget_sum(c.legs@) == prepaid_gas / 3 + prepaid_gas / 3);
        }
        c
    }

    /// Every unread message, grouped by sender.
    pub fn get_all_unread_messages(&self) -> (r: Vec<(String, Vec<String>)>)
        ensures
            groups_view(r@) == self@,
    {
        self.unread_messages.groups()
    }

    /// Forgets every unread message, on behalf of `acting_id`, which must be
    /// `owner_id`, the account that owns this mailbox.
    pub fn mark_all_as_read(&mut self, acting_id: &String, owner_id: &String) -> (r: Result<(), MailboxError>)
        ensures
            r is Err <==> acting_id@ != owner_id@,
            r is Err ==> r == Err::<(), MailboxError>(MailboxError::Unauthorized) && final(self)@ == old(self)@
                && final(self).wf() == old(self).wf(),
            r is Ok ==> final(self).wf() && final(self)@ == Seq::<(Seq<char>, Seq<Seq<char>>)>::empty(),
    {
        if *acting_id != *owner_id {
            return Err(MailboxError::Unauthorized);
        }
        self.unread_messages.clear();
        Ok(())
    }

    /// Records `message`, left by the calling account `predecessor_id`.
    pub fn leave_message(&mut self, predecessor_id: String, message: String)
        ensures
            old(self).wf() ==> final(self).wf(),
            final(self)@ == with_message(old(self)@, predecessor_id@, message@),
    {
        self.unread_messages.leave(predecessor_id, message);
    }

    /// The unread messages left by `sender_id`, oldest first, each paired
    /// with its sender.
    pub fn get_unread_messages(&self, sender_id: String) -> (r: Vec<(String, String)>)
        ensures
            pairs_view(r@) == tagged(sender_id@, messages_from(self@, sender_id@)),
    {
        let msgs = self.unread_messages.messages_of(&sender_id);
        let mut r: Vec<(String, String)> = Vec::new();
        let mut i: usize = 0;
        while i < msgs.len()
            invariant
                i <= msgs@.len(),
                pairs_view(r@) == tagged(sender_id@, strings_view(msgs@.take(i as int))),
            decreases msgs@.len() - i,
        {
            let ghost prev = r@;
            let e = (sender_id.clone(), msgs[i].clone());
            r.push(e);
            proof {
                assert(r@ == prev.push(e));
                assert(msgs@.take(i + 1) == msgs@.take(i as int).push(msgs@[i as int]));
                assert(pairs_view(r@) =~= pairs_view(prev).push((e.0@, e.1@)));
                assert(strings_view(msgs@.take(i + 1)) =~= strings_view(msgs@.take(i as int)).push(msgs@[i as int]@));
                assert(tagged(sender_id@, strings_view(msgs@.take(i + 1))) =~= tagged(
                    sender_id@,
                    strings_view(msgs@.take(i as int)),
                ).push((sender_id@, msgs@[i as int]@)));
            }
            i = i + 1;
        }
        assert(msgs@.take(i as int) =~= msgs@);
        r
    }

    /// Runs, on this messenger, the two legs of a relay from `sender_id`: the
    /// message is left first, and then what this messenger holds from
    /// `sender_id` is read back; that read is the result of the relay.
    pub fn relay(&mut self, sender_id: String, message: String) -> (r: Vec<(String, String)>)
        ensures
            final(self)@ == with_message(old(self)@, sender_id@, message@),
            old(self).wf() ==> final(self).wf(),
            pairs_view(r@) == tagged(sender_id@, messages_from(old(self)@, sender_id@).push(message@)),
    {
        let reader = sender_id.clone();
        proof {
            lemma_with_message(self@, sender_id@, message@);
        }
        self.leave_message(sender_id, message);
        self.get_unread_messages(reader)
    }
}

/// Methods that other services call on this one.
pub trait ExtMessenger {
    fn leave_message(&mut self, predecessor_id: String, message: String);

    fn get_unread_messages(&self, sender_id: String) -> Vec<(String, String)>;
}

impl ExtMessenger for Messenger {
    fn leave_message(&mut self, predecessor_id: String, message: String) {
        Messenger::leave_message(self, predecessor_id, message)
    }

    fn get_unread_messages(&self, sender_id: String) -> Vec<(String, String)> {
        Messenger::get_unread_messages(self, sender_id)
    }
}

} // verus!
