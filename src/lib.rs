//! Linked containers, each under its own ownership discipline, with their
//! behaviour stated as contracts over sequences of elements:
//!
//! - `bad_stack` and `option_stack`: stacks of `i32` over exclusively owned
//!   links (a two-variant enum, and an `Option` of a box);
//! - `stack`: a generic stack with peeking and walks by value, by shared
//!   reference and by mutable reference;
//! - `persistent`: an immutable list whose tails are shared by reference
//!   count;
//! - `deque`: a doubly linked list, worked from both ends;
//! - `queue`: a singly linked list with a cached tail, pushed at the tail and
//!   popped at the head.
//!
//! The lists that own their nodes through boxes release them one at a time,
//! so that dropping a long list takes no nested destructor calls.
pub mod bad_stack;
pub mod deque;
pub mod option_stack;
pub mod persistent;
pub mod queue;
pub mod stack;
