//! Playlists.

use vstd::prelude::*;

use crate::ncm_core::request::{request_of, ApiSpec, CryptoMode, Field, FieldView};

verus! {

/// How many tracks of a playlist are described in full. The ids of all tracks
/// come in any case; describing all of them would make the answer huge.
pub const PLAYLIST_TRACK_PREVIEW: u64 = 1_000;

/// Playlist metadata with all track ids.
pub fn detail(playlist_id: u64) -> (r: ApiSpec)
    ensures
        r@ == request_of("/weapi/v6/playlist/detail"@, CryptoMode::Weapi).adding(
            "id"@,
            FieldView::Number(playlist_id as nat),
        ).adding("n"@, FieldView::Number(PLAYLIST_TRACK_PREVIEW as nat)).adding("s"@, FieldView::Number(0)),
{
    ApiSpec::post("/weapi/v6/playlist/detail", CryptoMode::Weapi).with("id", Field::Number(playlist_id)).with(
        "n",
        Field::Number(PLAYLIST_TRACK_PREVIEW),
    ).with("s", Field::Number(0))
}

} // verus!
