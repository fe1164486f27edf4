//! Logging in.

use vstd::prelude::*;

use crate::ncm_core::request::{request_of, text_field, ApiSpec, CryptoMode, Field, FieldView};

verus! {

/// Who is logged in.
pub fn current_login_status() -> (r: ApiSpec)
    ensures
        r@ == request_of("/weapi/w/nuser/account/get"@, CryptoMode::Weapi),
{
    ApiSpec::post("/weapi/w/nuser/account/get", CryptoMode::Weapi)
}

/// The key of a new login.
pub fn qr_key() -> (r: ApiSpec)
    ensures
        r@ == request_of("/weapi/login/qrcode/unikey"@, CryptoMode::Weapi).adding_text("type"@, "1"@).adding(
            "noCheckToken"@,
            FieldView::Flag(true),
        ),
{
    ApiSpec::post("/weapi/login/qrcode/unikey", CryptoMode::Weapi).with("type", text_field("1")).with(
        "noCheckToken",
        Field::Flag(true),
    )
}

/// How a login stands.
pub fn qr_check(key: &str) -> (r: ApiSpec)
    ensures
        r@ == request_of("/weapi/login/qrcode/client/login"@, CryptoMode::Weapi).adding(
            "type"@,
            FieldView::Number(1),
        ).adding("noCheckToken"@, FieldView::Flag(true)).adding_text("key"@, key@),
{
    ApiSpec::post("/weapi/login/qrcode/client/login", CryptoMode::Weapi).with("type", Field::Number(1)).with(
        "noCheckToken",
        Field::Flag(true),
    ).with("key", text_field(key))
}

} // verus!
