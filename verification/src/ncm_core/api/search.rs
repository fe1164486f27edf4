//! Searching.

use vstd::prelude::*;

use crate::discovery::SearchKind;
use crate::ncm_core::request::{lemma_adding, number_field, request_of, text_field, ApiSpec, CryptoMode, FieldView};
use crate::text::decimal;

verus! {

#[derive(Clone, Copy, Debug, PartialEq, Eq, Structural)]
pub enum SearchType {
    Song,
    Album,
    Artist,
    Playlist,
}

pub open spec fn code_of(kind: SearchType) -> u16 {
    match kind {
        SearchType::Song => 1,
        SearchType::Album => 10,
        SearchType::Artist => 100,
        SearchType::Playlist => 1000,
    }
}

pub open spec fn type_of(kind: SearchKind) -> SearchType {
    match kind {
        SearchKind::Song => SearchType::Song,
        SearchKind::Album => SearchType::Album,
        SearchKind::Artist => SearchType::Artist,
        SearchKind::Playlist => SearchType::Playlist,
    }
}

impl SearchType {
    /// The number of the type in requests.
    pub fn code(self) -> (r: u16)
        ensures
            r == code_of(self),
    {
        match self {
            SearchType::Song => 1,
            SearchType::Album => 10,
            SearchType::Artist => 100,
            SearchType::Playlist => 1000,
        }
    }

    /// The type of what is searched for.
    pub fn of_kind(kind: SearchKind) -> (r: SearchType)
        ensures
            r == type_of(kind),
    {
        match kind {
            SearchKind::Song => SearchType::Song,
            SearchKind::Album => SearchType::Album,
            SearchKind::Artist => SearchType::Artist,
            SearchKind::Playlist => SearchType::Playlist,
        }
    }
}

/// A page of the results of a search.
pub fn cloud(keyword: &str, search_type: SearchType, limit: usize, offset: usize) -> (r: ApiSpec)
    ensures
        r@ == request_of("/eapi/cloudsearch/pc"@, CryptoMode::Eapi).adding_text("s"@, keyword@).adding_number(
            "type"@,
            code_of(search_type) as nat,
        ).adding_number("limit"@, limit as nat).adding_number("offset"@, offset as nat),
{
    ApiSpec::post("/eapi/cloudsearch/pc", CryptoMode::Eapi).with("s", text_field(keyword)).with(
        "type",
        number_field(search_type.code() as u64),
    ).with("limit", number_field(limit as u64)).with("offset", number_field(offset as u64))
}

/// A search asks for its keyword, the type's number, and the page.
pub proof fn lemma_search_request(keyword: &str, search_type: SearchType, limit: usize, offset: usize, r: ApiSpec)
    requires
        call_ensures(cloud, (keyword, search_type, limit, offset), r),
    ensures
        r@.payload.contains(("s"@, FieldView::Text(keyword@))),
        r@.payload.contains(("limit"@, FieldView::Text(decimal(limit as nat)))),
        r@.payload.contains(("offset"@, FieldView::Text(decimal(offset as nat)))),
        search_type == SearchType::Song ==> r@.payload.contains(("type"@, FieldView::Text(decimal(1)))),
        search_type == SearchType::Album ==> r@.payload.contains(("type"@, FieldView::Text(decimal(10)))),
        search_type == SearchType::Artist ==> r@.payload.contains(("type"@, FieldView::Text(decimal(100)))),
        search_type == SearchType::Playlist ==> r@.payload.contains(("type"@, FieldView::Text(decimal(1000)))),
{
    reveal_strlit("s");
    reveal_strlit("type");
    reveal_strlit("limit");
    reveal_strlit("offset");
    let kind = FieldView::Text(decimal(code_of(search_type) as nat));
    let length = FieldView::Text(decimal(limit as nat));
    let start = FieldView::Text(decimal(offset as nat));
    let word = FieldView::Text(keyword@);
    let a = request_of("/eapi/cloudsearch/pc"@, CryptoMode::Eapi);
    let b = a.adding("s"@, word);
    let c = b.adding("type"@, kind);
    let d = c.adding("limit"@, length);
    lemma_adding(a, "s"@, word, "s"@, word);
    lemma_adding(b, "type"@, kind, "s"@, word);
    lemma_adding(c, "limit"@, length, "s"@, word);
    lemma_adding(c, "limit"@, length, "type"@, kind);
    lemma_adding(d, "offset"@, start, "s"@, word);
    lemma_adding(d, "offset"@, start, "type"@, kind);
    lemma_adding(d, "offset"@, start, "limit"@, length);
}

} // verus!
