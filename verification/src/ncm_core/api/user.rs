//! What a user has.

use vstd::prelude::*;

use crate::ncm_core::request::{lemma_adding, number_field, request_of, text_field, ApiSpec, CryptoMode, FieldView};
use crate::text::decimal;

verus! {

/// A page of a user's playlists.
pub fn playlists(user_id: u64, offset: usize, limit: usize) -> (r: ApiSpec)
    ensures
        r@ == request_of("/weapi/user/playlist"@, CryptoMode::Weapi).adding_number(
            "offset"@,
            offset as nat,
        ).adding_number("limit"@, limit as nat).adding_number("uid"@, user_id as nat),
{
    ApiSpec::post("/weapi/user/playlist", CryptoMode::Weapi).with("offset", number_field(offset as u64)).with(
        "limit",
        number_field(limit as u64),
    ).with("uid", number_field(user_id))
}

/// A page of the albums that the user subscribed to.
pub fn subscribed_albums(offset: usize, limit: usize) -> (r: ApiSpec)
    ensures
        r@ == request_of("/weapi/album/sublist"@, CryptoMode::Weapi).adding_number(
            "offset"@,
            offset as nat,
        ).adding_number("limit"@, limit as nat),
{
    ApiSpec::post("/weapi/album/sublist", CryptoMode::Weapi).with("offset", number_field(offset as u64)).with(
        "limit",
        number_field(limit as u64),
    )
}

/// A page of the artists that the user subscribed to.
pub fn subscribed_artists(offset: usize, limit: usize) -> (r: ApiSpec)
    ensures
        r@ == request_of("/weapi/artist/sublist"@, CryptoMode::Weapi).adding_number(
            "offset"@,
            offset as nat,
        ).adding_number("limit"@, limit as nat),
{
    ApiSpec::post("/weapi/artist/sublist", CryptoMode::Weapi).with("offset", number_field(offset as u64)).with(
        "limit",
        number_field(limit as u64),
    )
}

#[derive(Clone, Copy, Debug, PartialEq, Eq, Structural)]
pub enum ListeningRank {
    Week,
    All,
}

/// What a user listened to most, in the last week or of all time.
pub fn listening_rank(user_id: u64, kind: ListeningRank) -> (r: ApiSpec)
    ensures
        r@ == request_of("/weapi/v1/play/record"@, CryptoMode::Weapi).adding_number(
            "uid"@,
            user_id as nat,
        ).adding_text("type"@, if kind == ListeningRank::Week { "1"@ } else { "0"@ }),
{
    let code: &'static str = match kind {
        ListeningRank::Week => "1",
        ListeningRank::All => "0",
    };
    ApiSpec::post("/weapi/v1/play/record", CryptoMode::Weapi).with("uid", number_field(user_id)).with(
        "type",
        text_field(code),
    )
}

/// A page of playlists is asked for by the user's number and the page.
pub proof fn lemma_playlists_request(user_id: u64, offset: usize, limit: usize, r: ApiSpec)
    requires
        call_ensures(playlists, (user_id, offset, limit), r),
    ensures
        r@.payload.contains(("uid"@, FieldView::Text(decimal(user_id as nat)))),
        r@.payload.contains(("offset"@, FieldView::Text(decimal(offset as nat)))),
        r@.payload.contains(("limit"@, FieldView::Text(decimal(limit as nat)))),
{
    reveal_strlit("uid");
    reveal_strlit("limit");
    reveal_strlit("offset");
    assert("uid"@[0] == 'u' && "limit"@[0] == 'l' && "offset"@[0] == 'o');
    let user = FieldView::Text(decimal(user_id as nat));
    let length = FieldView::Text(decimal(limit as nat));
    let start = FieldView::Text(decimal(offset as nat));
    let a = request_of("/weapi/user/playlist"@, CryptoMode::Weapi);
    let b = a.adding("offset"@, start);
    let c = b.adding("limit"@, length);
    lemma_adding(a, "offset"@, start, "offset"@, start);
    lemma_adding(b, "limit"@, length, "offset"@, start);
    lemma_adding(c, "uid"@, user, "offset"@, start);
    lemma_adding(c, "uid"@, user, "limit"@, length);
}

/// The albums and the artists that were subscribed to are asked for by the page.
pub proof fn lemma_subscribed_request(offset: usize, limit: usize, albums: ApiSpec, artists: ApiSpec)
    requires
        call_ensures(subscribed_albums, (offset, limit), albums),
        call_ensures(subscribed_artists, (offset, limit), artists),
    ensures
        albums@.payload.contains(("offset"@, FieldView::Text(decimal(offset as nat)))),
        albums@.payload.contains(("limit"@, FieldView::Text(decimal(limit as nat)))),
        artists@.payload.contains(("offset"@, FieldView::Text(decimal(offset as nat)))),
        artists@.payload.contains(("limit"@, FieldView::Text(decimal(limit as nat)))),
{
    reveal_strlit("limit");
    reveal_strlit("offset");
    assert("limit"@[0] == 'l' && "offset"@[0] == 'o');
    let length = FieldView::Text(decimal(limit as nat));
    let start = FieldView::Text(decimal(offset as nat));
    let a = request_of("/weapi/album/sublist"@, CryptoMode::Weapi);
    let b = request_of("/weapi/artist/sublist"@, CryptoMode::Weapi);
    lemma_adding(a, "offset"@, start, "offset"@, start);
    lemma_adding(a.adding("offset"@, start), "limit"@, length, "offset"@, start);
    lemma_adding(b, "offset"@, start, "offset"@, start);
    lemma_adding(b.adding("offset"@, start), "limit"@, length, "offset"@, start);
}

/// What a user listened to is asked for by the user's number; the last week
/// is the first kind, and all time the zeroth.
pub proof fn lemma_rank_request(user_id: u64, week: ApiSpec, all: ApiSpec)
    requires
        call_ensures(listening_rank, (user_id, ListeningRank::Week), week),
        call_ensures(listening_rank, (user_id, ListeningRank::All), all),
    ensures
        week@.payload.contains(("uid"@, FieldView::Text(decimal(user_id as nat)))),
        all@.payload.contains(("uid"@, FieldView::Text(decimal(user_id as nat)))),
        week@.payload.contains(("type"@, FieldView::Text("1"@))),
        all@.payload.contains(("type"@, FieldView::Text("0"@))),
{
    reveal_strlit("uid");
    reveal_strlit("type");
    assert("uid"@[0] == 'u' && "type"@[0] == 't');
    let user = FieldView::Text(decimal(user_id as nat));
    let a = request_of("/weapi/v1/play/record"@, CryptoMode::Weapi);
    lemma_adding(a, "uid"@, user, "uid"@, user);
    lemma_adding(a.adding("uid"@, user), "type"@, FieldView::Text("1"@), "uid"@, user);
    lemma_adding(a.adding("uid"@, user), "type"@, FieldView::Text("0"@), "uid"@, user);
}

} // verus!
