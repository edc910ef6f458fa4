//! A DMX512 lighting mixer: fixtures, effects, cues and the command line that drives them.
pub mod command_input_parser;
pub mod cue;
pub mod effect;
pub mod fixture;
pub mod installation;
pub mod installation_loader;
pub mod keys;
pub mod light;
pub mod mixer;
pub mod names;
pub mod pattern;
pub mod show_loader;
pub mod text;
pub mod value;
