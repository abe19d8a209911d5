pub mod adapter;
pub mod catalog;
pub mod clock;
pub mod command_panel;
pub mod commands;
pub mod correlation;
pub mod dataflow;
pub mod descriptor_index;
pub mod layout;
pub mod mavlink;
pub mod pending;
pub mod protocol;
pub mod schema;
pub mod search;
pub mod status;
pub mod text;
pub mod views;
pub mod settings;
pub mod streams;
pub mod descriptor_nesting;
pub mod manager_modal;
pub mod layout_guard;
pub mod io_stats;
