//! A verified singly linked list: nodes live in an arena and are linked by
//! stable integer handles; the list keeps head and tail handles and a count.

pub mod linkedlist;
pub mod node;
