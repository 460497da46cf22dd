//! A contacts store with unique ids and emails, and the mutation events
//! published when todos are created or deleted.

pub mod contact;
pub mod todo;
