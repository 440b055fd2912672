//! Core logic of the Surfer waveform viewer: time formatting, frame-buffer
//! decoding, configuration values and the small state machines behind the UI.
pub mod text;
pub mod time;
pub mod color;
pub mod wave_refs;
pub mod frame_buffer;
pub mod config;
pub mod clock_highlighting;
pub mod drawing_canvas;
pub mod file_dialog;
pub mod tiles;
pub mod hierarchy;
pub mod system_state;
pub mod batch_commands;
pub mod channels;
pub mod config_dialog;
pub mod config_dialog_ui;
pub mod data_container;
pub mod displayed_item;
pub mod remote;
pub mod svg_export;
pub mod frame_buffer_arrays;
pub mod help;
pub mod transactions;
pub mod marker;
