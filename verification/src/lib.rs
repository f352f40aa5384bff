use vstd::prelude::*;

pub mod action;
pub mod agent;
pub mod cache;
pub mod catalog;
pub mod command_catalog;
pub mod config;
pub mod copy;
pub mod debug_fmt;
pub mod display;
pub mod event;
pub mod execution_capture;
pub mod execution_history;
pub mod help;
pub mod history_page;
pub mod i18n;
pub mod input;
pub mod input_page;
pub mod interaction;
pub mod key_mapping;
pub mod link_copy;
pub mod login;
pub mod model_defaults;
pub mod model_marks;
pub mod mouse_selection;
pub mod notice;
pub mod page_core;
pub mod path_completion;
pub mod preview;
pub mod profile;
pub mod projection;
pub mod question;
pub mod reading;
pub mod sorting;
pub mod table;
pub mod text;
pub mod unicode;

verus! {
} // verus!
