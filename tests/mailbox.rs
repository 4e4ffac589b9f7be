use courier::chat::{Chat, MailboxError};
use courier::inbox::{ExtInbox, Inbox};
use courier::messenger::{ExtMessenger, Messenger};

fn s(x: &str) -> String {
    x.to_string()
}

fn pair(a: &str, b: &str) -> (String, String) {
    (s(a), s(b))
}

#[test]
fn leave_message() {
    let mut contract = Chat::default();
    // Alice sends message to Bob.
    contract.leave_message(s("alice_near"), s("bob_near"), s("Hey!"));
    // Carol sends message to Bob.
    contract.leave_message(s("carol_near"), s("bob_near"), s("Hi!"));
    // Bob gets message that he received from Alice and Carol.
    assert_eq!(
        contract.get_unread_messages(&s("bob_near")),
        vec![pair("alice_near", "Hey!"), pair("carol_near", "Hi!")]
    );
}

#[test]
fn no_messages() {
    let contract = Chat::default();
    // Alice has no messages.
    assert_eq!(contract.get_unread_messages(&s("alice_near")), vec![]);
}

#[test]
fn several_users() {
    let mut contract = Chat::default();
    // Alice sends message to Bob.
    contract.leave_message(s("alice_near"), s("bob_near"), s("Hey!"));
    // Carol sends message to Alice.
    contract.leave_message(s("carol_near"), s("alice_near"), s("Hi!"));
    // Bob gets message that he received from Alice.
    assert_eq!(contract.get_unread_messages(&s("bob_near")), vec![pair("alice_near", "Hey!")]);
    // Alice gets message that she received from Carol.
    assert_eq!(contract.get_unread_messages(&s("alice_near")), vec![pair("carol_near", "Hi!")]);
}

#[test]
fn read_all() {
    let mut contract = Chat::default();
    // Alice sends message to Bob.
    contract.leave_message(s("alice_near"), s("bob_near"), s("Hey!"));
    // Bob marks all messages as read and checks that there are no unread messages.
    contract.mark_all_as_read(&s("bob_near"));
    assert_eq!(contract.get_unread_messages(&s("bob_near")), vec![]);
}

#[test]
fn lib_leave_message() {
    let mut contract = Inbox::default();
    // Alice leaves a message for Bob.
    contract.leave_message(s("alice_near"), s("Hey!"));
    // Bob gets message that he received from Alice.
    assert_eq!(contract.get_all_unread_messages(), vec![(s("alice_near"), vec![s("Hey!")])]);
}

#[test]
fn records_come_back_in_insertion_order() {
    let mut chat = Chat::default();
    chat.leave_message(s("a"), s("owner"), s("1"));
    chat.leave_message(s("b"), s("owner"), s("2"));
    chat.leave_message(s("a"), s("owner"), s("1"));
    assert_eq!(
        chat.get_unread_messages(&s("owner")),
        vec![pair("a", "1"), pair("b", "2"), pair("a", "1")]
    );
}

#[test]
fn other_owners_do_not_see_messages() {
    let mut chat = Chat::default();
    chat.leave_message(s("a"), s("owner"), s("secret"));
    assert_eq!(chat.get_unread_messages(&s("someone_else")), vec![]);
    assert_eq!(chat.get_unread_messages(&s("a")), vec![]);
}

#[test]
fn clearing_another_mailbox_is_unauthorized() {
    let mut chat = Chat::default();
    chat.leave_message(s("alice"), s("bob"), s("Hey!"));
    chat.leave_message(s("bob"), s("carol"), s("Yo"));
    assert_eq!(chat.clear_all_for(&s("carol"), &s("bob")), Err(MailboxError::Unauthorized));
    assert_eq!(chat.get_unread_messages(&s("bob")), vec![pair("alice", "Hey!")]);
    assert_eq!(chat.clear_all_for(&s("bob"), &s("bob")), Ok(()));
    assert_eq!(chat.get_unread_messages(&s("bob")), vec![]);
    assert_eq!(chat.get_unread_messages(&s("carol")), vec![pair("bob", "Yo")]);
}

#[test]
fn relay_to_empty_mailbox_returns_the_message() {
    let mut chat = Chat::default();
    assert_eq!(chat.relay(s("alice"), s("bob"), s("Hey!")), vec![pair("alice", "Hey!")]);
}

#[test]
fn two_relays_are_read_in_order() {
    let mut chat = Chat::default();
    chat.relay(s("alice"), s("bob"), s("Hey!"));
    assert_eq!(
        chat.relay(s("carol"), s("bob"), s("Hi!")),
        vec![pair("alice", "Hey!"), pair("carol", "Hi!")]
    );
    assert_eq!(chat.get_unread_messages(&s("bob")), vec![pair("alice", "Hey!"), pair("carol", "Hi!")]);
}

#[test]
fn clear_then_read_is_empty() {
    let mut chat = Chat::default();
    chat.relay(s("alice"), s("bob"), s("Hey!"));
    assert_eq!(chat.clear_all_for(&s("bob"), &s("bob")), Ok(()));
    assert_eq!(chat.get_unread_messages(&s("bob")), vec![]);
}

#[test]
fn inbox_groups_by_sender() {
    let mut inbox = Inbox::default();
    inbox.leave_message(s("alice"), s("one"));
    inbox.leave_message(s("bob"), s("two"));
    ExtInbox::leave_message(&mut inbox, s("alice"), s("three"));
    assert_eq!(
        inbox.get_all_unread_messages(),
        vec![(s("alice"), vec![s("one"), s("three")]), (s("bob"), vec![s("two")])]
    );
    assert_eq!(inbox.mark_all_as_read(&s("alice"), &s("bob")), Err(MailboxError::Unauthorized));
    assert_eq!(inbox.get_all_unread_messages().len(), 2);
    assert_eq!(inbox.mark_all_as_read(&s("me"), &s("me")), Ok(()));
    assert_eq!(inbox.get_all_unread_messages(), vec![]);
}

#[test]
fn messenger_reads_one_sender() {
    let mut m = Messenger::default();
    m.leave_message(s("alice"), s("one"));
    m.leave_message(s("bob"), s("two"));
    ExtMessenger::leave_message(&mut m, s("alice"), s("three"));
    assert_eq!(m.get_unread_messages(s("alice")), vec![pair("alice", "one"), pair("alice", "three")]);
    assert_eq!(ExtMessenger::get_unread_messages(&m, s("carol")), vec![]);
    assert_eq!(m.get_all_unread_messages().len(), 2);
    assert_eq!(m.mark_all_as_read(&s("alice"), &s("me")), Err(MailboxError::Unauthorized));
    assert_eq!(m.get_unread_messages(s("bob")), vec![pair("bob", "two")]);
    assert_eq!(m.mark_all_as_read(&s("me"), &s("me")), Ok(()));
    assert_eq!(m.get_unread_messages(s("bob")), vec![]);
}

#[test]
fn messenger_relay_to_empty_mailbox() {
    let mut bob = Messenger::default();
    assert_eq!(bob.relay(s("alice"), s("Hey!")), vec![pair("alice", "Hey!")]);
    assert_eq!(bob.relay(s("alice"), s("Again")), vec![pair("alice", "Hey!"), pair("alice", "Again")]);
}

#[test]
fn messages_from_one_sender_keep_their_order() {
    let mut inbox = Inbox::default();
    inbox.leave_message(s("p"), s("x0"));
    inbox.leave_message(s("q"), s("y"));
    inbox.leave_message(s("p"), s("x1"));
    inbox.leave_message(s("p"), s("x2"));
    assert_eq!(
        inbox.get_all_unread_messages(),
        vec![(s("p"), vec![s("x0"), s("x1"), s("x2")]), (s("q"), vec![s("y")])]
    );
}
