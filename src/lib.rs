//! Account-scoped mailboxes, call chains between services, and the budget
//! arithmetic used to provision child services.

pub mod budget;
pub mod chat;
pub mod chain;
pub mod text;
pub mod factory;
pub mod unread;
pub mod inbox;
pub mod messenger;
pub mod hotel;
