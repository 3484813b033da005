//! A study aid: questions carry a priority, the next question is drawn by a
//! lottery weighted by priority, and each answer moves the priority of the
//! question that was asked.

pub mod chance;
pub mod list;
pub mod lottery;
pub mod order;
pub mod question;
pub mod session;
pub mod text;
