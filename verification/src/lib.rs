//! The decisions of a Minecraft launcher, verified with Verus.
//!
//! - `platform`: the operating systems the launcher tells apart.
//! - `text`: characters, words, lines, trimming and the order of strings.
//! - `path_syntax`: paths read as `std::path::Path` reads them: prefixes,
//!   roots, components, file names, parents, and joining.
//! - `paths`: the game's directories, absolute forms of
//!   resolved paths, classpath entries, and where archive entries go.
//! - `archive`: reading a zip archive held in memory, and the plan for
//!   unpacking the native libraries of a version.
//! - `java`: finding Java homes and choosing the executable that runs the game.
//! - `launch`: the command line of the game, the start command and the batch
//!   file that starts it.
//! - `request`: a GET request to a URL.
//!
//! The file system, processes and the network stay with the program that uses
//! the library: it hands the library what it read and does what the library
//! decided.

pub mod platform;
pub mod text;
pub mod path_syntax;
pub mod paths;
pub mod archive;
pub mod java;
pub mod launch;
pub mod request;
