//! A mailbox store keyed by owner: each entry records who left which message
//! for whom, in the order the messages arrived.
use vstd::prelude::*;

verus! {

/// A sender and the text it left.
pub type MessageView = (Seq<char>, Seq<char>);

/// One recorded message: its owner (the receiver), its sender and its text.
pub struct Letter {
    pub receiver: String,
    pub sender: String,
    pub text: String,
}

impl View for Letter {
    type V = (Seq<char>, Seq<char>, Seq<char>);

    open spec fn view(&self) -> Self::V {
        (self.receiver@, self.sender@, self.text@)
    }
}

/// Errors of the mailbox-mutating operations.
#[derive(Debug, Clone, Copy, PartialEq, Eq, Structural)]
pub enum MailboxError {
    /// The acting identity is not the owner of the mailbox it tried to change.
    Unauthorized,
}

/// The messages of `owner` in `log`, oldest first.
pub open spec fn mailbox_of(log: Seq<(Seq<char>, Seq<char>, Seq<char>)>, owner: Seq<char>) -> Seq<MessageView>
    decreases log.len(),
{
    if log.len() == 0 {
        Seq::empty()
    } else {
        let prev = mailbox_of(log.drop_last(), owner);
        let e = log.last();
        if e.0 == owner {
            prev.push((e.1, e.2))
        } else {
            prev
        }
    }
}

/// The plain view of a list of (sender, text) pairs.
pub open spec fn pairs_view(v: Seq<(String, String)>) -> Seq<MessageView> {
    v.map_values(|p: (String, String)| (p.0@, p.1@))
}

/// The plain view of a list of letters.
pub open spec fn letters_view(v: Seq<Letter>) -> Seq<(Seq<char>, Seq<char>, Seq<char>)> {
    v.map_values(|l: Letter| l@)
}

/// Messages left for each account, read and cleared by that account alone.
pub struct Chat {
    unread_messages: Vec<Letter>,
}

impl View for Chat {
    type V = Seq<(Seq<char>, Seq<char>, Seq<char>)>;

    closed spec fn view(&self) -> Self::V {
        letters_view(self.unread_messages@)
    }
}

fn copy_letter(l: &Letter) -> (r: Letter)
    ensures
        r@ == l@,
{
    Letter { receiver: l.receiver.clone(), sender: l.sender.clone(), text: l.text.clone() }
}

impl Default for Chat {
    fn default() -> (r: Self)
        ensures
            r@ == Seq::<(Seq<char>, Seq<char>, Seq<char>)>::empty(),
    {
        let r = Chat { unread_messages: Vec::new() };
        assert(r@ =~= Seq::<(Seq<char>, Seq<char>, Seq<char>)>::empty());
        r
    }
}

impl Chat {
    /// Appends `message` from `signer_id` to the mailbox of `receiver_id`.
    pub fn leave_message(&mut self, signer_id: String, receiver_id: String, message: String)
        ensures
            final(self)@ == old(self)@.push((receiver_id@, signer_id@, message@)),
            forall|o: Seq<char>|
                #[trigger] mailbox_of(final(self)@, o) == if o == receiver_id@ {
                    mailbox_of(old(self)@, o).push((signer_id@, message@))
                } else {
                    mailbox_of(old(self)@, o)
                },
    {
        let ghost before = self@;
        let l = Letter { receiver: receiver_id, sender: signer_id, text: message };
        self.unread_messages.push(l);
        assert(self@ =~= before.push(l@));
        assert(self@.drop_last() =~= before);
    }

    /// The messages left for `owner_id`, oldest first; empty if there are none.
    pub fn get_unread_messages(&self, owner_id: &String) -> (r: Vec<(String, String)>)
        ensures
            pairs_view(r@) == mailbox_of(self@, owner_id@),
    {
        let mut r: Vec<(String, String)> = Vec::new();
        let mut i: usize = 0;
        while i < self.unread_messages.len()
            invariant
                i <= self.unread_messages@.len(),
                pairs_view(r@) == mailbox_of(self@.take(i as int), owner_id@),
            decreases self.unread_messages@.len() - i,
        {
            let l = &self.unread_messages[i];
            let ghost prev = r@;
            if l.receiver == *owner_id {
                r.push((l.sender.clone(), l.text.clone()));
                assert(pairs_view(r@) =~= pairs_view(prev).push((l.sender@, l.text@)));
            }
            assert(self@.take(i + 1).drop_last() =~= self@.take(i as int));
            i = i + 1;
        }
        assert(self@.take(i as int) =~= self@);
        r
    }

    /// Removes every message left for `owner_id`; other mailboxes are untouched.
    pub fn mark_all_as_read(&mut self, owner_id: &String)
        ensures
            forall|o: Seq<char>|
                #[trigger] mailbox_of(final(self)@, o) == if o == owner_id@ {
                    Seq::<MessageView>::empty()
                } else {
                    mailbox_of(old(self)@, o)
                },
    {
        let ghost before = self@;
        let mut kept: Vec<Letter> = Vec::new();
        let mut i: usize = 0;
        while i < self.unread_messages.len()
            invariant
                i <= self.unread_messages@.len(),
                self@ == before,
                forall|o: Seq<char>|
                    #[trigger] mailbox_of(letters_view(kept@), o) == if o == owner_id@ {
                        Seq::<MessageView>::empty()
                    } else {
                        mailbox_of(before.take(i as int), o)
                    },
            decreases self.unread_messages@.len() - i,
        {
            let ghost prev = letters_view(kept@);
            let l = &self.unread_messages[i];
            assert(before.take(i + 1).drop_last() =~= before.take(i as int));
            assert(before.take(i + 1).last() == l@);
            if l.receiver != *owner_id {
                kept.push(copy_letter(l));
                let ghost now = letters_view(kept@);
                assert(now.drop_last() =~= prev);
                assert(now.last() == l@);
                assert forall|o: Seq<char>|
                    #[trigger] mailbox_of(now, o) == if o == owner_id@ {
                        Seq::<MessageView>::empty()
                    } else {
                        mailbox_of(before.take(i + 1), o)
                    } by {
                    assert(mailbox_of(now, o) == if l@.0 == o {
                        mailbox_of(prev, o).push((l@.1, l@.2))
                    } else {
                        mailbox_of(prev, o)
                    });
                }
            } else {
                assert forall|o: Seq<char>|
                    #[trigger] mailbox_of(prev, o) == if o == owner_id@ {
                        Seq::<MessageView>::empty()
                    } else {
                        mailbox_of(before.take(i + 1), o)
                    } by {}
            }
            i = i + 1;
        }
        assert(before.take(i as int) =~= before);
        self.unread_messages = kept;
    }

    /// Clears the mailbox of `owner_id` on behalf of `acting_id`, which must be
    /// that owner.
    pub fn clear_all_for(&mut self, acting_id: &String, owner_id: &String) -> (r: Result<(), MailboxError>)
        ensures
            r is Err <==> acting_id@ != owner_id@,
            r is Err ==> r == Err::<(), MailboxError>(MailboxError::Unauthorized) && final(self)@ == old(self)@,
            r is Ok ==> forall|o: Seq<char>|
                #[trigger] mailbox_of(final(self)@, o) == if o == owner_id@ {
                    Seq::<MessageView>::empty()
                } else {
                    mailbox_of(old(self)@, o)
                },
    {
        if *acting_id != *owner_id {
            return Err(MailboxError::Unauthorized);
        }
        self.mark_all_as_read(owner_id);
        Ok(())
    }
}

/// The log entries that recording `msgs`, in order, for `owner` appends.
pub open spec fn addressed(owner: Seq<char>, msgs: Seq<MessageView>) -> Seq<(Seq<char>, Seq<char>, Seq<char>)> {
    msgs.map_values(|m: MessageView| (owner, m.0, m.1))
}

/// Recording a run of messages for one owner makes that owner's mailbox end
/// with exactly that run, in order, and leaves every other mailbox as it was.
pub proof fn lemma_records_in_order(log: Seq<(Seq<char>, Seq<char>, Seq<char>)>, owner: Seq<char>, msgs: Seq<MessageView>)
    ensures
        mailbox_of(log + addressed(owner, msgs), owner) == mailbox_of(log, owner) + msgs,
        forall|other: Seq<char>|
            other != owner ==> #[trigger] mailbox_of(log + addressed(owner, msgs), other) == mailbox_of(log, other),
    decreases msgs.len(),
{
    if msgs.len() == 0 {
        assert(log + addressed(owner, msgs) =~= log);
        assert(mailbox_of(log, owner) + msgs =~= mailbox_of(log, owner));
    } else {
        let shorter = msgs.drop_last();
        lemma_records_in_order(log, owner, shorter);
        let whole = log + addressed(owner, msgs);
        assert(whole.drop_last() =~= log + addressed(owner, shorter));
        assert(whole.last() == (owner, msgs.last().0, msgs.last().1));
        assert((mailbox_of(log, owner) + shorter).push(msgs.last()) =~= mailbox_of(log, owner) + msgs);
        assert forall|other: Seq<char>|
            other != owner implies #[trigger] mailbox_of(whole, other) == mailbox_of(log, other) by {
            assert(mailbox_of(whole, other) == mailbox_of(whole.drop_last(), other));
        }
    }
}

impl Chat {
    /// Relays `payload` from `sender_id` to the mailbox of `peer_id` and then
    /// reads that mailbox back: the two legs run in this order, and the result
    /// of the second is the result of the relay.
    pub fn relay(&mut self, sender_id: String, peer_id: String, payload: String) -> (r: Vec<(String, String)>)
        ensures
            final(self)@ == old(self)@.push((peer_id@, sender_id@, payload@)),
            pairs_view(r@) == mailbox_of(old(self)@, peer_id@).push((sender_id@, payload@)),
    {
        let owner = peer_id.clone();
        self.leave_message(sender_id, peer_id, payload);
        self.get_unread_messages(&owner)
    }
}

} // verus!
