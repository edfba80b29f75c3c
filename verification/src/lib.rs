use vstd::prelude::*;

pub mod anilist;
pub mod commands;
pub mod db;
pub mod dlna;
pub mod error;
pub mod http;
pub mod kitsu;
pub mod llm;
pub mod metadata;
pub mod models;
pub mod nyaa;
pub mod parser;
pub mod paths;
pub mod player;
pub mod rename;
pub mod scanner;
pub mod pattern;
pub mod text;

verus! {

/// Whether to force WebKit off its DMABUF renderer: only when the user has not set the
/// variable, the session is Wayland and the NVIDIA driver is loaded.
pub fn needs_dmabuf_workaround(already_set: bool, wayland: bool, nvidia: bool) -> (r: bool)
    ensures
        r == (!already_set && wayland && nvidia),
{
    !already_set && wayland && nvidia
}

} // verus!
