//! Frame handling and reply logic of the `botbot` chat bot, which reads the
//! frames that matrix-commander prints and answers the messages it finds there.

pub mod botbot;
pub mod matrix;
pub mod message;
pub mod message_mgmt;
pub mod my_system;
pub mod pattern;
pub mod text;
pub mod transliterate;
pub mod trigger_words;
