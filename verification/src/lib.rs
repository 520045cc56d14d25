//! Configuration, layout and bookkeeping logic of the Suono audio
//! visualiser.
pub mod text;
pub mod color;
pub mod config;
pub mod pw_connections;
pub mod layout;
pub mod waveform;
pub mod history;
pub mod timeline;
