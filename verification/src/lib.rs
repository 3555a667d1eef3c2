//! A reputation ledger for group chats.
//!
//! Members of a chat thank each other by mentioning a handle next to a
//! configured keyword. Every such mention moves one coin to the mentioned
//! member, as long as the sender has not used up the daily allowance. The
//! crate holds the table of members, the accounting on it, the reading of
//! incoming messages and the wording of the answers.
//!
//! The ledger is keyed by username. The table does not keep usernames
//! apart: an operation on a username changes every row that bears it, and
//! a question about a username is answered from the first such row.
//!
//! A message is handled through `&mut ChatServer`, so the reading of an
//! allowance, its reset on a new day, the coin and the count belong to one
//! exclusive section. Whatever shares a ledger between tasks locks it once
//! for a whole message.
//!
//! Nothing here touches a file or a network. `handler` takes a message as
//! plain values and returns the messages to send; the table is handed in
//! and out as rows.

pub mod award;
pub mod calendar;
pub mod chat_server;
pub mod command;
pub mod handler;
pub mod leaderboard;
pub mod table;
pub mod text;
