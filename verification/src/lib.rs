//! Decision core of a chat bot: role-based permissions with inheritance and
//! explicit denial, canned and regex-matched replies, utility commands, and
//! per-key cooldowns, orchestrated by a single dispatch engine.

pub mod commands;
pub mod config;
pub mod cooldown;
pub mod decimal;
pub mod handler;
pub mod table;
pub mod text;
pub mod util;

