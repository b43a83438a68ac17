//! An entity-driven terminal rendering and update loop: a small runtime that
//! owns a set of stateful entities, each able to render itself to a shared
//! terminal surface, update its internal state once per tick, and react to
//! discrete input events. A screen-lock demo (countdown, password prompt,
//! feedback banner, static text) is built on top of it.

pub mod base_entity;
pub mod clock;
pub mod config;
pub mod controller;
pub mod count_down_entity;
pub mod entity;
pub mod feedback_entity;
pub mod input;
pub mod password_prompt_entity;
pub mod properties;
pub mod static_text_entity;
pub mod terminal;
pub mod textfmt;
