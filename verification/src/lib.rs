//! Desktop mascot "miryam": the verified core of its text handling,
//! configuration rules, schedules and reading notes.

pub mod chat;
pub mod clock;
pub mod control;
pub mod curl;
pub mod inkdrop;
pub mod json;
pub mod links;
pub mod llm;
pub mod news;
pub mod paths;
pub mod phrases;
pub mod placement;
pub mod reader;
pub mod scheduler;
pub mod system;
pub mod text;
