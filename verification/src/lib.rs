//! Detection and moderation rules of a Discord anti-scam bot.
//!
//! Everything here computes: it takes plain values, decides, and hands plain
//! values back. Talking to Discord, to SQLite, to the file system and to the
//! `tesseract` program is left to the program around the library.
pub mod commands;
pub mod config;
pub mod crops;
pub mod embeds;
pub mod flood;
pub mod guildstore;
pub mod handler;
pub mod hashstore;
pub mod images;
pub mod linkimage;
pub mod lists;
pub mod mentions;
pub mod ocr;
pub mod paths;
pub mod patterns;
pub mod recent;
pub mod retro;
pub mod review;
pub mod rows;
pub mod slashconfig;
pub mod suggestions;
pub mod sweep;
pub mod text;
pub mod unicode;
