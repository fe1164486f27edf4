//! Tracks.

use vstd::prelude::*;

use crate::ncm_core::request::{
    field_views, lemma_adding, number_field, object_text, request_of, set_field, text_field, with_field, write_object,
    ApiSpec, CryptoMode, Field, FieldView,
};
use crate::text::{decimal, join, joined, texts};

verus! {

/// A track as an object that holds nothing but its id.
pub open spec fn id_object(id: u64) -> Seq<char> {
    object_text(with_field(seq![], "id"@, FieldView::Text(decimal(id as nat))))
}

pub open spec fn id_objects(ids: Seq<u64>) -> Seq<Seq<char>> {
    ids.map_values(|id: u64| id_object(id))
}

/// The details of tracks.
pub fn detail(song_ids: &Vec<u64>) -> (r: ApiSpec)
    ensures
        r@ == request_of("/weapi/v3/song/detail"@, CryptoMode::Weapi).adding_text(
            "c"@,
            "["@ + joined(id_objects(song_ids@), ","@) + "]"@,
        ),
{
    let mut parts: Vec<String> = Vec::new();
    let mut i: usize = 0;
    proof {
        assert(texts(parts@) =~= id_objects(song_ids@).take(0));
    }
    while i < song_ids.len()
        invariant
            i <= song_ids@.len(),
            texts(parts@) == id_objects(song_ids@).take(i as int),
        decreases song_ids@.len() - i,
    {
        let mut fields: Vec<(String, Field)> = Vec::new();
        proof {
            assert(field_views(fields@) =~= seq![]);
        }
        set_field(&mut fields, "id", number_field(song_ids[i]));
        let part = write_object(&fields);
        let ghost held = parts@;
        let ghost put = part@;
        parts.push(part);
        proof {
            assert(texts(parts@) =~= texts(held).push(put));
            assert(id_objects(song_ids@).take(i + 1) =~= id_objects(song_ids@).take(i as int).push(put));
        }
        i += 1;
    }
    proof {
        assert(id_objects(song_ids@).take(i as int) =~= id_objects(song_ids@));
    }
    let mut list: String = "[".to_owned();
    list.append(join(&parts, ",").as_str());
    list.append("]");
    ApiSpec::post("/weapi/v3/song/detail", CryptoMode::Weapi).with("c", text_field(list.as_str()))
}

/// Where the audio of tracks is, by bitrate.
pub fn audio(song_ids: &Vec<u64>, bitrate: u32, encode_type: &str) -> (r: ApiSpec)
    ensures
        r@ == request_of("/eapi/song/enhance/player/url"@, CryptoMode::Eapi).adding(
            "ids"@,
            FieldView::Ids(song_ids@),
        ).adding_text("encodeType"@, encode_type@).adding_number("br"@, bitrate as nat),
{
    ApiSpec::post("/eapi/song/enhance/player/url", CryptoMode::Eapi).with(
        "ids",
        Field::Ids(crate::catalog::copy_ids(song_ids)),
    ).with("encodeType", text_field(encode_type)).with("br", number_field(bitrate as u64))
}

/// Where the audio of tracks is, by quality.
pub fn audio_v1(song_ids: &Vec<u64>, level: &str, encode_type: &str) -> (r: ApiSpec)
    ensures
        r@ == request_of("/eapi/song/enhance/player/url/v1"@, CryptoMode::Eapi).adding(
            "ids"@,
            FieldView::Ids(song_ids@),
        ).adding_text("encodeType"@, encode_type@).adding_text("level"@, level@),
{
    ApiSpec::post("/eapi/song/enhance/player/url/v1", CryptoMode::Eapi).with(
        "ids",
        Field::Ids(crate::catalog::copy_ids(song_ids)),
    ).with("encodeType", text_field(encode_type)).with("level", text_field(level))
}

/// The lyrics of a track, with word timing where it is known.
pub fn lyrics_v1(song_id: u64) -> (r: ApiSpec)
    ensures
        r@ == request_of("/eapi/song/lyric/v1"@, CryptoMode::Eapi).adding_number("id"@, song_id as nat).adding(
            "cp"@,
            FieldView::Flag(false),
        ).adding("lv"@, FieldView::Number(0)).adding("tv"@, FieldView::Number(0)).adding(
            "rv"@,
            FieldView::Number(0),
        ).adding("kv"@, FieldView::Number(0)).adding("yv"@, FieldView::Number(0)).adding(
            "ytv"@,
            FieldView::Number(0),
        ).adding("yrv"@, FieldView::Number(0)),
{
    ApiSpec::post("/eapi/song/lyric/v1", CryptoMode::Eapi).with("id", number_field(song_id)).with(
        "cp",
        Field::Flag(false),
    ).with("lv", Field::Number(0)).with("tv", Field::Number(0)).with("rv", Field::Number(0)).with(
        "kv",
        Field::Number(0),
    ).with("yv", Field::Number(0)).with("ytv", Field::Number(0)).with("yrv", Field::Number(0))
}

/// The lyrics of a track, line by line.
pub fn lyrics(song_id: u64) -> (r: ApiSpec)
    ensures
        r@ == request_of("/weapi/song/lyric"@, CryptoMode::Weapi).adding_number("id"@, song_id as nat).adding_text(
            "lv"@,
            "-1"@,
        ).adding_text("tv"@, "-1"@).adding_text("rv"@, "-1"@),
{
    ApiSpec::post("/weapi/song/lyric", CryptoMode::Weapi).with("id", number_field(song_id)).with(
        "lv",
        text_field("-1"),
    ).with("tv", text_field("-1")).with("rv", text_field("-1"))
}

/// The audio of tracks is asked for by their numbers, the quality and the
/// encoding.
pub proof fn lemma_audio_request(song_ids: &Vec<u64>, level: &str, encode_type: &str, r: ApiSpec)
    requires
        call_ensures(audio_v1, (song_ids, level, encode_type), r),
    ensures
        r@.payload.contains(("ids"@, FieldView::Ids(song_ids@))),
        r@.payload.contains(("level"@, FieldView::Text(level@))),
        r@.payload.contains(("encodeType"@, FieldView::Text(encode_type@))),
{
    reveal_strlit("ids");
    reveal_strlit("level");
    reveal_strlit("encodeType");
    assert("ids"@[0] == 'i' && "level"@[0] == 'l' && "encodeType"@[0] == 'e');
    let ids = FieldView::Ids(song_ids@);
    let encoding = FieldView::Text(encode_type@);
    let quality = FieldView::Text(level@);
    let a = request_of("/eapi/song/enhance/player/url/v1"@, CryptoMode::Eapi);
    let b = a.adding("ids"@, ids);
    let c = b.adding("encodeType"@, encoding);
    lemma_adding(a, "ids"@, ids, "ids"@, ids);
    lemma_adding(b, "encodeType"@, encoding, "ids"@, ids);
    lemma_adding(c, "level"@, quality, "ids"@, ids);
    lemma_adding(c, "level"@, quality, "encodeType"@, encoding);
}

} // verus!
