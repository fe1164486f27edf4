//! Recommendations.

use vstd::prelude::*;

use crate::ncm_core::request::{request_of, text_field, ApiSpec, CryptoMode};

verus! {

/// The songs of the day.
pub fn daily_songs() -> (r: ApiSpec)
    ensures
        r@ == request_of("/api/v3/discovery/recommend/songs"@, CryptoMode::Weapi).adding_text(
            "offset"@,
            "0"@,
        ).adding_text("total"@, "true"@).adding_text("limit"@, "1000"@),
{
    ApiSpec::post("/api/v3/discovery/recommend/songs", CryptoMode::Weapi).with("offset", text_field("0")).with(
        "total",
        text_field("true"),
    ).with("limit", text_field("1000"))
}

/// The playlists that are recommended.
pub fn playlists() -> (r: ApiSpec)
    ensures
        r@ == request_of("/weapi/v1/discovery/recommend/resource"@, CryptoMode::Weapi),
{
    ApiSpec::post("/weapi/v1/discovery/recommend/resource", CryptoMode::Weapi)
}

} // verus!
