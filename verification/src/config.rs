//! The settings of the program, and what they are where nothing is set.

use vstd::prelude::*;

use crate::playback_cache::DEFAULT_PLAYBACK_CACHE_BYTES;

verus! {

#[derive(Clone, Debug)]
pub struct AuthConfig {
    pub music_u: String,
    pub csrf: String,
    pub method: String,
    pub session_file: String,
}

impl Default for AuthConfig {
    fn default() -> (r: AuthConfig)
        ensures
            r.music_u@.len() == 0,
            r.csrf@.len() == 0,
            r.method@ == "auto"@,
            r.session_file@ == ".ncm_session"@,
    {
        AuthConfig {
            music_u: String::new(),
            csrf: String::new(),
            method: "auto".to_owned(),
            session_file: ".ncm_session".to_owned(),
        }
    }
}

#[derive(Clone, Debug)]
pub struct PlaybackCacheConfig {
    pub dir: String,
    pub max_bytes: u64,
}

impl Default for PlaybackCacheConfig {
    fn default() -> (r: PlaybackCacheConfig)
        ensures
            r.dir@ == "./.ncm-cache/playback"@,
            r.max_bytes == DEFAULT_PLAYBACK_CACHE_BYTES,
    {
        PlaybackCacheConfig { dir: "./.ncm-cache/playback".to_owned(), max_bytes: DEFAULT_PLAYBACK_CACHE_BYTES }
    }
}

#[derive(Clone, Debug)]
pub struct LibraryConfig {
    pub dirs: Vec<String>,
    pub scan_before_download: bool,
}

impl Default for LibraryConfig {
    fn default() -> (r: LibraryConfig)
        ensures
            r.dirs@.len() == 0,
            !r.scan_before_download,
    {
        LibraryConfig { dirs: Vec::new(), scan_before_download: false }
    }
}

#[derive(Clone, Debug)]
pub struct TagConfig {
    pub dirs: Vec<String>,
    pub use_fingerprint: bool,
    pub overwrite: bool,
    pub dry_run: bool,
}

impl Default for TagConfig {
    fn default() -> (r: TagConfig)
        ensures
            r.dirs@.len() == 0,
            r.use_fingerprint,
            !r.overwrite,
            !r.dry_run,
    {
        TagConfig { dirs: Vec::new(), use_fingerprint: true, overwrite: false, dry_run: false }
    }
}

#[derive(Clone, Debug)]
pub struct AcoustidConfig {
    pub api_key: String,
    pub enabled: bool,
}

impl Default for AcoustidConfig {
    fn default() -> (r: AcoustidConfig)
        ensures
            r.api_key@.len() == 0,
            !r.enabled,
    {
        AcoustidConfig { api_key: String::new(), enabled: false }
    }
}

#[derive(Clone, Debug)]
pub struct OrganizeConfig {
    pub dir: String,
}

impl Default for OrganizeConfig {
    fn default() -> (r: OrganizeConfig)
        ensures
            r.dir@.len() == 0,
    {
        OrganizeConfig { dir: String::new() }
    }
}

#[derive(Clone, Debug)]
pub struct UiConfig {
    pub hide_lyrics: bool,
}

impl Default for UiConfig {
    fn default() -> (r: UiConfig)
        ensures
            !r.hide_lyrics,
    {
        UiConfig { hide_lyrics: false }
    }
}

} // verus!
