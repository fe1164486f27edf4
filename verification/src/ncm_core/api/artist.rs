//! Artists.

use vstd::prelude::*;

use crate::ncm_core::request::{lemma_adding, number_field, request_of, text_field, ApiSpec, CryptoMode, FieldView};
use crate::text::{decimal, decimal_text};

verus! {

/// A page of an artist's albums.
pub fn albums(artist_id: u64, offset: usize, limit: usize) -> (r: ApiSpec)
    ensures
        r@ == request_of("/weapi/artist/albums/"@ + decimal(artist_id as nat), CryptoMode::Weapi).adding_number(
            "offset"@,
            offset as nat,
        ).adding_text("total"@, "true"@).adding_number("limit"@, limit as nat),
{
    let path = "/weapi/artist/albums/".to_owned().concat(decimal_text(artist_id).as_str());
    ApiSpec::post(path.as_str(), CryptoMode::Weapi).with("offset", number_field(offset as u64)).with(
        "total",
        text_field("true"),
    ).with("limit", number_field(limit as u64))
}

/// A page of an artist's songs, by time.
pub fn songs(artist_id: u64, offset: usize, limit: usize) -> (r: ApiSpec)
    ensures
        r@ == request_of("/weapi/v1/artist/songs"@, CryptoMode::Weapi).adding_number(
            "id"@,
            artist_id as nat,
        ).adding_number("offset"@, offset as nat).adding_text("total"@, "true"@).adding_number(
            "limit"@,
            limit as nat,
        ).adding_text("order"@, "time"@),
{
    ApiSpec::post("/weapi/v1/artist/songs", CryptoMode::Weapi).with("id", number_field(artist_id)).with(
        "offset",
        number_field(offset as u64),
    ).with("total", text_field("true")).with("limit", number_field(limit as u64)).with("order", text_field("time"))
}

/// The songs of an artist are asked for by the artist's number and the page,
/// in the order of time.
pub proof fn lemma_songs_request(artist_id: u64, offset: usize, limit: usize, r: ApiSpec)
    requires
        call_ensures(songs, (artist_id, offset, limit), r),
    ensures
        r@.payload.contains(("id"@, FieldView::Text(decimal(artist_id as nat)))),
        r@.payload.contains(("offset"@, FieldView::Text(decimal(offset as nat)))),
        r@.payload.contains(("limit"@, FieldView::Text(decimal(limit as nat)))),
        r@.payload.contains(("order"@, FieldView::Text("time"@))),
{
    reveal_strlit("id");
    reveal_strlit("offset");
    reveal_strlit("total");
    reveal_strlit("limit");
    reveal_strlit("order");
    assert("total"@[0] == 't' && "limit"@[0] == 'l' && "order"@[0] == 'o');
    let number = FieldView::Text(decimal(artist_id as nat));
    let start = FieldView::Text(decimal(offset as nat));
    let length = FieldView::Text(decimal(limit as nat));
    let total = FieldView::Text("true"@);
    let order = FieldView::Text("time"@);
    let a = request_of("/weapi/v1/artist/songs"@, CryptoMode::Weapi);
    let b = a.adding("id"@, number);
    let c = b.adding("offset"@, start);
    let d = c.adding("total"@, total);
    let e = d.adding("limit"@, length);
    lemma_adding(a, "id"@, number, "id"@, number);
    lemma_adding(b, "offset"@, start, "id"@, number);
    lemma_adding(c, "total"@, total, "id"@, number);
    lemma_adding(c, "total"@, total, "offset"@, start);
    lemma_adding(d, "limit"@, length, "id"@, number);
    lemma_adding(d, "limit"@, length, "offset"@, start);
    lemma_adding(e, "order"@, order, "id"@, number);
    lemma_adding(e, "order"@, order, "offset"@, start);
    lemma_adding(e, "order"@, order, "limit"@, length);
}

} // verus!
