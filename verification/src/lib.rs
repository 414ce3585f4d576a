//! Review requests and review activity on GitHub.
//!
//! The library decides what is asked of `gh`, herdr and the terminal, and what is
//! made of their answers. It runs no program and touches no file itself: a function
//! that needs outside work takes the list of what that work gave so far, and returns
//! either the next thing to do or the end result.
//!
//! - Texts: [`text`], [`order`], [`number`], [`split`], [`quote`], and collections
//!   keyed by them in [`textmap`]; sorting in [`rank`]; facts about lists in
//!   [`lists`].
//! - Outside data: [`json`], [`process`], [`resolve`].
//! - The list of pull requests: [`gh`], [`search`], [`model`], [`summary`],
//!   [`status`], and how it is shown in [`view`] and [`cli`].
//! - Settings: [`config`], [`settings`].
//! - AI reviews: [`agent`], [`herdr`], [`terminal`], [`records`], [`reports`],
//!   [`ai`].
pub mod agent;
pub mod ai;
pub mod cli;
pub mod config;
pub mod gh;
pub mod herdr;
pub mod json;
pub mod lists;
pub mod model;
pub mod number;
pub mod order;
pub mod process;
pub mod quote;
pub mod rank;
pub mod records;
pub mod reports;
pub mod resolve;
pub mod search;
pub mod settings;
pub mod split;
pub mod status;
pub mod summary;
pub mod terminal;
pub mod text;
pub mod textmap;
pub mod view;
