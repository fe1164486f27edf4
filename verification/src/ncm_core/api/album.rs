//! Albums.

use vstd::prelude::*;

use crate::ncm_core::request::{request_of, ApiSpec, CryptoMode};
use crate::text::{decimal, decimal_text};

verus! {

/// Album metadata and its complete song list.
pub fn detail(album_id: u64) -> (r: ApiSpec)
    ensures
        r@ == request_of("/weapi/v1/album/"@ + decimal(album_id as nat), CryptoMode::Weapi),
{
    let path = "/weapi/v1/album/".to_owned().concat(decimal_text(album_id).as_str());
    ApiSpec::post(path.as_str(), CryptoMode::Weapi)
}

} // verus!
