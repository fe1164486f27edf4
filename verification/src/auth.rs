//! Logging in with a code that is scanned, poll by poll.

use vstd::prelude::*;

use crate::json::{either, either_of, number_at_of, number_option, Json};
use crate::text::{signed_decimal, signed_decimal_text};
use crate::time::Instant;

verus! {

#[derive(Clone, Debug, PartialEq, Eq)]
pub struct QrChallenge {
    pub key: String,
    pub url: String,
}

#[derive(Clone, Debug, PartialEq, Eq)]
pub struct Identity {
    pub user_id: u64,
    pub nickname: String,
}

#[derive(Clone, Debug, PartialEq, Eq)]
pub enum QrStatus {
    Waiting,
    Scanned,
    Authenticated(Identity),
    Expired,
    RiskControlled,
}

#[derive(Clone, Debug, PartialEq, Eq)]
pub enum AuthError {
    InvalidResponse(&'static str),
    Rejected { code: i64, message: String },
}

pub enum AuthErrorView {
    InvalidResponse(Seq<char>),
    Rejected { code: int, message: Seq<char> },
}

impl View for AuthError {
    type V = AuthErrorView;

    open spec fn view(&self) -> AuthErrorView {
        match *self {
            AuthError::InvalidResponse(name) => AuthErrorView::InvalidResponse(name@),
            AuthError::Rejected { code, message } => AuthErrorView::Rejected { code: code as int, message: message@ },
        }
    }
}

impl AuthError {
    pub open spec fn message_of(self) -> Seq<char> {
        match self@ {
            AuthErrorView::InvalidResponse(name) => "NCM response is missing "@ + name,
            AuthErrorView::Rejected { code, message } => "NCM rejected authentication with code "@ + signed_decimal(
                code,
            ) + ": "@ + message,
        }
    }

    /// The error in words.
    pub fn message(&self) -> (r: String)
        ensures
            r@ == self.message_of(),
    {
        match self {
            AuthError::InvalidResponse(name) => "NCM response is missing ".to_owned().concat(name),
            AuthError::Rejected { code, message } => {
                let mut out: String = "NCM rejected authentication with code ".to_owned();
                out.append(signed_decimal_text(*code).as_str());
                out.append(": ");
                out.append(message.as_str());
                out
            },
        }
    }
}

pub open spec fn code_of(response: Json) -> Option<i64> {
    match response.get_of("code"@) {
        Some(value) => value.i64_of(),
        None => None,
    }
}

/// What an answer says about why it refuses.
pub open spec fn reason_of(response: Json) -> Seq<char> {
    match either_of(response, "message"@, "msg"@) {
        Some(value) => match value.text_of() {
            Some(text) => text,
            None => "unknown authentication error"@,
        },
        None => "unknown authentication error"@,
    }
}

fn message_at(response: &Json) -> (r: String)
    ensures
        r@ == reason_of(*response),
{
    match either(response, "message", "msg") {
        Some(value) => match value.as_str() {
            Some(text) => text.to_owned(),
            None => "unknown authentication error".to_owned(),
        },
        None => "unknown authentication error".to_owned(),
    }
}

/// What is wrong with an answer that should have a code.
pub open spec fn refusal_of(response: Json, expected: i64) -> Option<AuthErrorView> {
    match code_of(response) {
        Some(code) => if code == expected {
            None
        } else {
            Some(AuthErrorView::Rejected { code: code as int, message: reason_of(response) })
        },
        None => Some(AuthErrorView::InvalidResponse("code"@)),
    }
}

fn code_at(response: &Json) -> (r: Option<i64>)
    ensures
        r == code_of(*response),
{
    match response.get("code") {
        Some(value) => value.as_i64(),
        None => None,
    }
}

pub fn ensure_code(response: &Json, expected: i64) -> (r: Result<(), AuthError>)
    ensures
        match r {
            Ok(_) => refusal_of(*response, expected) is None,
            Err(error) => refusal_of(*response, expected) == Some(error@),
        },
{
    match code_at(response) {
        Some(code) => if code == expected {
            Ok(())
        } else {
            Err(AuthError::Rejected { code, message: message_at(response) })
        },
        None => Err(AuthError::InvalidResponse("code")),
    }
}

/// The number under a key of a part of an answer.
pub open spec fn nested_number(response: Json, part: Seq<char>, key: Seq<char>) -> Option<nat> {
    match response.get_of(part) {
        Some(value) => number_at_of(value, key),
        None => None,
    }
}

/// The id of the user: that of the account, or else that of the profile.
pub open spec fn user_id_of(response: Json) -> Option<nat> {
    let id = match nested_number(response, "account"@, "id"@) {
        Some(id) => Some(id),
        None => nested_number(response, "profile"@, "userId"@),
    };
    match id {
        Some(id) => if id > 0 {
            Some(id)
        } else {
            None
        },
        None => None,
    }
}

pub open spec fn nickname_of(response: Json) -> Seq<char> {
    match response.get_of("profile"@) {
        Some(profile) => match profile.get_of("nickname"@) {
            Some(name) => match name.text_of() {
                Some(text) => text,
                None => "Unknown user"@,
            },
            None => "Unknown user"@,
        },
        None => "Unknown user"@,
    }
}

fn number_in(response: &Json, part: &str, key: &str) -> (r: Option<u64>)
    ensures
        number_option(r) == nested_number(*response, part@, key@),
{
    match response.get(part) {
        Some(value) => crate::json::number_at(value, key),
        None => None,
    }
}

/// Who is logged in.
pub fn identity_from_response(response: &Json) -> (r: Result<Identity, AuthError>)
    ensures
        match r {
            Ok(identity) => refusal_of(*response, 200) is None && user_id_of(*response) == Some(
                identity.user_id as nat,
            ) && identity.nickname@ == nickname_of(*response),
            Err(error) => match refusal_of(*response, 200) {
                Some(refusal) => error@ == refusal,
                None => user_id_of(*response) is None && error@ == AuthErrorView::InvalidResponse(
                    "account.id/profile.userId"@,
                ),
            },
        },
{
    match ensure_code(response, 200) {
        Ok(_) => {},
        Err(error) => {
            return Err(error);
        },
    }
    let id: Option<u64> = match number_in(response, "account", "id") {
        Some(id) => Some(id),
        None => number_in(response, "profile", "userId"),
    };
    let user_id: u64 = match id {
        Some(id) => id,
        None => 0,
    };
    if user_id == 0 {
        return Err(AuthError::InvalidResponse("account.id/profile.userId"));
    }
    let nickname: String = match response.get("profile") {
        Some(profile) => match profile.get("nickname") {
            Some(name) => match name.as_str() {
                Some(text) => text.to_owned(),
                None => "Unknown user".to_owned(),
            },
            None => "Unknown user".to_owned(),
        },
        None => "Unknown user".to_owned(),
    };
    Ok(Identity { user_id, nickname })
}

/// The key of a login, which stands at the top of the answer or in its data.
pub open spec fn login_key_of(response: Json) -> Option<Seq<char>> {
    let value = match response.get_of("unikey"@) {
        Some(key) => Some(key),
        None => match response.get_of("data"@) {
            Some(data) => data.get_of("unikey"@),
            None => None,
        },
    };
    match value {
        Some(key) => match key.text_of() {
            Some(text) => if text.len() > 0 {
                Some(text)
            } else {
                None
            },
            None => None,
        },
        None => None,
    }
}

/// The login that an answer starts: its key, and the address to be scanned.
pub fn begin_qr(response: &Json) -> (r: Result<QrChallenge, AuthError>)
    ensures
        match r {
            Ok(challenge) => refusal_of(*response, 200) is None && login_key_of(*response) == Some(challenge.key@)
                && challenge.url@ == "https://music.163.com/login?codekey="@ + challenge.key@,
            Err(error) => match refusal_of(*response, 200) {
                Some(refusal) => error@ == refusal,
                None => login_key_of(*response) is None && error@ == AuthErrorView::InvalidResponse("unikey"@),
            },
        },
{
    match ensure_code(response, 200) {
        Ok(_) => {},
        Err(error) => {
            return Err(error);
        },
    }
    let value: Option<&Json> = match response.get("unikey") {
        Some(key) => Some(key),
        None => match response.get("data") {
            Some(data) => data.get("unikey"),
            None => None,
        },
    };
    let text: Option<&str> = match value {
        Some(key) => key.as_str(),
        None => None,
    };
    match text {
        Some(key) => if key.is_empty() {
            Err(AuthError::InvalidResponse("unikey"))
        } else {
            Ok(
                QrChallenge {
                    key: key.to_owned(),
                    url: "https://music.163.com/login?codekey=".to_owned().concat(key),
                },
            )
        },
        None => Err(AuthError::InvalidResponse("unikey")),
    }
}

/// What a poll of a login says.
#[derive(Clone, Debug, PartialEq, Eq)]
pub enum QrPoll {
    /// The login stands like this.
    Status(QrStatus),
    /// The login succeeded: ask who is logged in, and save the session.
    Confirmed,
}

/// What a poll of a login says.
pub fn poll_qr(response: &Json) -> (r: Result<QrPoll, AuthError>)
    ensures
        match code_of(*response) {
            Some(800) => r == Ok::<QrPoll, AuthError>(QrPoll::Status(QrStatus::Expired)),
            Some(801) => r == Ok::<QrPoll, AuthError>(QrPoll::Status(QrStatus::Waiting)),
            Some(802) => r == Ok::<QrPoll, AuthError>(QrPoll::Status(QrStatus::Scanned)),
            Some(803) => r == Ok::<QrPoll, AuthError>(QrPoll::Confirmed),
            Some(8821) => r == Ok::<QrPoll, AuthError>(QrPoll::Status(QrStatus::RiskControlled)),
            Some(code) => r is Err && r->Err_0@ == (AuthErrorView::Rejected {
                code: code as int,
                message: reason_of(*response),
            }),
            None => r is Err && r->Err_0@ == AuthErrorView::InvalidResponse("code"@),
        },
{
    match code_at(response) {
        Some(800) => Ok(QrPoll::Status(QrStatus::Expired)),
        Some(801) => Ok(QrPoll::Status(QrStatus::Waiting)),
        Some(802) => Ok(QrPoll::Status(QrStatus::Scanned)),
        Some(803) => Ok(QrPoll::Confirmed),
        Some(8821) => Ok(QrPoll::Status(QrStatus::RiskControlled)),
        Some(code) => Err(AuthError::Rejected { code, message: message_at(response) }),
        None => Err(AuthError::InvalidResponse("code")),
    }
}

/// What comes of waiting for a login: nothing while it goes on, and in the end
/// the last status, or its expiry once the deadline is reached.
pub fn wait_step(status: QrStatus, now: Instant, deadline: Instant) -> (r: Option<QrStatus>)
    ensures
        r == if status is Waiting || status is Scanned {
            if now@ >= deadline@ {
                Some(QrStatus::Expired)
            } else {
                None
            }
        } else {
            Some(status)
        },
{
    match status {
        QrStatus::Waiting | QrStatus::Scanned => if now.nanos >= deadline.nanos {
            Some(QrStatus::Expired)
        } else {
            None
        },
        other => Some(other),
    }
}

// Laws of logging in.

/// A poll of a login tells whether it expired, waits, was scanned, was confirmed
/// or is held back for risk; any other code is an error.
pub proof fn lemma_polls(response: Json, code: u64, r: Result<QrPoll, AuthError>)
    requires
        call_ensures(poll_qr, (&response,), r),
        response.get_of("code"@) == Some(Json::Unsigned(code)),
        code <= i64::MAX,
    ensures
        code == 800 <==> r == Ok::<QrPoll, AuthError>(QrPoll::Status(QrStatus::Expired)),
        code == 801 <==> r == Ok::<QrPoll, AuthError>(QrPoll::Status(QrStatus::Waiting)),
        code == 802 <==> r == Ok::<QrPoll, AuthError>(QrPoll::Status(QrStatus::Scanned)),
        code == 803 <==> r == Ok::<QrPoll, AuthError>(QrPoll::Confirmed),
        code == 8821 <==> r == Ok::<QrPoll, AuthError>(QrPoll::Status(QrStatus::RiskControlled)),
        r is Err <==> code != 800 && code != 801 && code != 802 && code != 803 && code != 8821,
{
}

/// A login is started with the key that the service gives, and its address
/// holds that key.
pub proof fn lemma_login_starts(response: Json, key: String, r: Result<QrChallenge, AuthError>)
    requires
        call_ensures(begin_qr, (&response,), r),
        response.get_of("code"@) == Some(Json::Unsigned(200)),
    ensures
        response.get_of("unikey"@) == Some(Json::Text(key)) && key@.len() > 0 ==> r is Ok && r->Ok_0.key@ == key@
            && r->Ok_0.url@ == "https://music.163.com/login?codekey="@ + key@,
        response.get_of("unikey"@) == Some(Json::Text(key)) && key@.len() == 0 ==> r is Err,
        response.get_of("unikey"@) is None && response.get_of("data"@) is None ==> r is Err,
{
}

/// Who is logged in is the user of the account, by the name of the profile; an
/// answer that names none, or the user zero, is an error.
pub proof fn lemma_identity(response: Json, account: Json, id: u64, r: Result<Identity, AuthError>)
    requires
        call_ensures(identity_from_response, (&response,), r),
        response.get_of("code"@) == Some(Json::Unsigned(200)),
    ensures
        response.get_of("account"@) == Some(account) && account.get_of("id"@) == Some(Json::Unsigned(id)) && id > 0
            ==> r is Ok && r->Ok_0.user_id == id && r->Ok_0.nickname@ == nickname_of(response),
        response.get_of("account"@) == Some(account) && account.get_of("id"@) == Some(Json::Unsigned(0)) ==> r is Err,
        response.get_of("account"@) is None && response.get_of("profile"@) is None ==> r is Err,
{
}

/// The name of a user is the nickname of the profile.
pub proof fn lemma_nickname(response: Json, profile: Json, name: String)
    ensures
        response.get_of("profile"@) == Some(profile) && profile.get_of("nickname"@) == Some(Json::Text(name))
            ==> nickname_of(response) == name@,
        response.get_of("profile"@) is None ==> nickname_of(response) == "Unknown user"@,
{
}

/// An answer is refused exactly where its code is not the one that is expected,
/// with that code and the reason that it gives.
pub proof fn lemma_refusals(response: Json, code: u64, expected: i64, reason: String)
    requires
        response.get_of("code"@) == Some(Json::Unsigned(code)),
        code <= i64::MAX,
        expected >= 0,
    ensures
        refusal_of(response, expected) is None <==> code == expected,
        code != expected && response.get_of("message"@) == Some(Json::Text(reason)) ==> refusal_of(response, expected)
            == Some(AuthErrorView::Rejected { code: code as int, message: reason@ }),
{
}

/// Waiting for a login goes on only while it waits or was scanned and there is
/// time left; then it is over with its status, or expired.
pub proof fn lemma_waiting(status: QrStatus, now: Instant, deadline: Instant, r: Option<QrStatus>)
    requires
        call_ensures(wait_step, (status, now, deadline), r),
    ensures
        r is None <==> (status is Waiting || status is Scanned) && now@ < deadline@,
        !(status is Waiting) && !(status is Scanned) ==> r == Some(status),
        (status is Waiting || status is Scanned) && now@ >= deadline@ ==> r == Some(QrStatus::Expired),
{
}

} // verus!
