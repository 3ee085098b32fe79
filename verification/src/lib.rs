//! The rules of `ufrume`, a tool that scans music files, tags them from MusicBrainz and computes
//! their ReplayGain: which files are music, what their tags say, what is searched for and chosen,
//! how albums are formed, and what is written back.
//!
//! Everything here works on plain values and on tags as `lofty` holds them. Reading directories
//! and files, decoding audio, asking the web service and talking to the user is left to the
//! program.

pub mod album;
pub mod command;
pub mod gain_run;
pub mod lofty_file;
pub mod lofty_tag;
pub mod logging;
pub mod number;
pub mod order;
pub mod replaygain;
pub mod scan;
pub mod second_run;
pub mod tag;
pub mod tag_laws;
pub mod text;
