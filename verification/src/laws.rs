//! What holds of presentations as a whole.

pub mod acceptance;
pub mod answering;
pub mod asking;
pub mod binding;
pub mod calls;
pub mod challenges;
pub mod checking;
pub mod data;
pub mod links;
pub mod making;
pub mod messages;
pub mod presentations;
pub mod statements;
