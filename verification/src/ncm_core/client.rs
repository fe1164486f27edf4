//! What a client does with requests and answers, but for sending them.

use rand::seq::SliceRandom;
use rand::Rng;
use vstd::prelude::*;
use vstd::utf8::encode_utf8;

use crate::ncm_core::crypto::{
    aes_ecb, aes_ecb_opened, eapi_decrypt, eapi_encrypt, eapi_plaintext, hex_text, sealed_params, sealed_secret,
    weapi_encrypt, CryptoError, EAPI_AES_KEY,
};
use crate::ncm_core::request::{
    object_text, request_of, set_field, text_field, with_field, write_object, ApiSpec, ApiView, CryptoMode, FieldView,
    PreparedRequest, RequestEntropy,
};
use crate::ncm_core::session::{apply_cookie_header, with_cookie_header, SessionConfig, SessionView};
use crate::path::{extension, extension_of, with_extension, with_extension_of};
use crate::text::{
    all_replaced, chars_of, decimal, decimal_text, first_replaced, parse_u64, parse_unsigned_of, replace_all,
    replace_first, skip_chars, split_once, split_once_of, starts_with,
};
use crate::time::{Duration, Instant};

verus! {

pub const HOST: &'static str = "https://music.163.com";

/// The characters that a secret is made of.
pub const BASE62: &'static str = "PJArHa0dpwhvMNYqKnTbitWfEmosQ9527ZBx46IXUgOzD81VuSFyckLRljG3eC";

pub const WEAPI_USER_AGENT: &'static str =
    "Mozilla/5.0 (linux@github.com/mos9527/pyncm_asycn) Chrome/PyNCM_Async.1.8.1";

pub const EAPI_USER_AGENT: &'static str = "Mozilla/5.0 (Windows NT 10.0; WOW64) AppleWebKit/537.36 (KHTML, like Gecko) Safari/537.36 Chrome/91.0.4472.164 NeteaseMusicDesktop/2.10.2.200154";

pub const DEFAULT_MAX_RETRIES: usize = 3;

// Chance.

/// `rand::seq::SliceRandom::choose` with the generator of the thread: one of the
/// characters of a list that is not empty. Which one is left to chance.
#[verifier::external_body]
fn choose_char(alphabet: &[char]) -> (r: char)
    requires
        alphabet@.len() > 0,
    ensures
        alphabet@.contains(r),
{
    *alphabet.choose(&mut rand::thread_rng()).unwrap()
}

/// `rand::Rng::gen_range` with the generator of the thread: a number from `low`
/// up to, but not including, `high`. Which one is left to chance.
#[verifier::external_body]
pub(crate) fn random_number(low: u64, high: u64) -> (r: u64)
    requires
        low < high,
    ensures
        low <= r < high,
{
    rand::thread_rng().gen_range(low..high)
}

/// The least and the bound of the numbers of requests.
pub const REQUEST_ID_START: u64 = 20_000_000;

pub const REQUEST_ID_END: u64 = 30_000_000;

/// Whether a text may be the secret of a request.
pub open spec fn is_secret(s: Seq<char>) -> bool {
    s.len() == 16 && forall|i: int| 0 <= i < 16 ==> BASE62@.contains(#[trigger] s[i])
}

impl RequestEntropy {
    /// A secret of sixteen characters and the number of a request, by chance.
    pub fn random() -> (r: RequestEntropy)
        ensures
            is_secret(r.weapi_secret@),
            exists|n: u64|
                REQUEST_ID_START <= n < REQUEST_ID_END && r.request_id@ == #[trigger] decimal(n as nat),
    {
        let alphabet = chars_of(BASE62);
        proof {
            reveal_strlit("PJArHa0dpwhvMNYqKnTbitWfEmosQ9527ZBx46IXUgOzD81VuSFyckLRljG3eC");
        }
        let mut secret: String = String::new();
        let mut i: usize = 0;
        while i < 16
            invariant
                i <= 16,
                alphabet@ == BASE62@,
                alphabet@.len() > 0,
                secret@.len() == i,
                forall|j: int| 0 <= j < i ==> BASE62@.contains(#[trigger] secret@[j]),
            decreases 16 - i,
        {
            secret.push(choose_char(alphabet.as_slice()));
            i += 1;
        }
        let n: u64 = random_number(REQUEST_ID_START, REQUEST_ID_END);
        RequestEntropy { weapi_secret: secret, request_id: decimal_text(n) }
    }
}

// Preparing requests.

/// The body of a request for the web interface.
pub open spec fn weapi_body(session: SessionView, payload: Seq<(Seq<char>, FieldView)>) -> Seq<char> {
    object_text(with_field(payload, "csrf_token"@, FieldView::Text(session.csrf_token)))
}

/// What a request for the desktop interface says of the device.
pub open spec fn eapi_header(session: SessionView, request_id: Seq<char>) -> Seq<char> {
    object_text(
        request_of(Seq::empty(), CryptoMode::Eapi).adding_text("os"@, session.os).adding_text(
            "appver"@,
            session.appver,
        ).adding_text("osver"@, session.osver).adding_text("channel"@, session.channel).adding_text(
            "deviceId"@,
            session.device_id,
        ).adding_text("requestId"@, request_id).payload,
    )
}

/// The body of a request for the desktop interface.
pub open spec fn eapi_body(
    session: SessionView,
    request_id: Seq<char>,
    payload: Seq<(Seq<char>, FieldView)>,
) -> Seq<char> {
    object_text(with_field(payload, "header"@, FieldView::Text(eapi_header(session, request_id))))
}

/// Whether a request is what an interface expects for a session and an entropy.
pub open spec fn is_prepared(
    request: PreparedRequest,
    session: SessionView,
    spec_: ApiView,
    secret: Seq<char>,
    request_id: Seq<char>,
) -> bool {
    &&& request.crypto == spec_.crypto
    &&& match spec_.crypto {
        CryptoMode::Weapi => {
            let body = weapi_body(session, spec_.payload);
            &&& request.url@ == HOST@ + all_replaced(spec_.path, "/api/"@, "/weapi/"@)
            &&& request.query@.len() == 1
            &&& request.query@[0].0@ == "csrf_token"@ && request.query@[0].1@ == session.csrf_token
            &&& request.user_agent@ == WEAPI_USER_AGENT@
            &&& request.referer@ == HOST@
            &&& request.form@.len() == 2
            &&& request.form@[0].0@ == "params"@ && request.form@[0].1@ == sealed_params(body, secret)
            &&& request.form@[1].0@ == "encSecKey"@ && request.form@[1].1@ == sealed_secret(secret)
        },
        CryptoMode::Eapi => {
            let body = eapi_body(session, request_id, spec_.payload);
            let path = first_replaced(spec_.path, "/eapi/"@, "/api/"@);
            &&& request.url@ == HOST@ + spec_.path
            &&& request.query@.len() == 0
            &&& request.user_agent@ == EAPI_USER_AGENT@
            &&& request.referer@ == Seq::<char>::empty()
            &&& request.form@.len() == 1
            &&& request.form@[0].0@ == "params"@
            &&& request.form@[0].1@ == hex_text(aes_ecb(encode_utf8(eapi_plaintext(path, body)), EAPI_AES_KEY@))
        },
    }
}

/// The session that requests are made with.
pub struct NcmClient {
    session: SessionConfig,
}

impl View for NcmClient {
    type V = SessionView;

    closed spec fn view(&self) -> SessionView {
        self.session@
    }
}

impl NcmClient {
    pub fn new(session: SessionConfig) -> (r: NcmClient)
        ensures
            r@ == session@,
    {
        NcmClient { session }
    }

    pub fn session(&self) -> (r: &SessionConfig)
        ensures
            r@ == self@,
    {
        &self.session
    }

    /// The session with the credentials that the service gave last, which stand
    /// in a header with cookies.
    pub fn authenticated_session(&self, cookies: Option<&str>) -> (r: SessionConfig)
        ensures
            r@ == match cookies {
                Some(header) => with_cookie_header(self@, header@),
                None => self@,
            },
    {
        let mut session = self.session.copy();
        if let Some(header) = cookies {
            apply_cookie_header(&mut session, header);
        }
        session
    }

    /// Prepares a request with an entropy that is left to chance.
    pub fn prepare(&self, spec_: ApiSpec) -> (r: Result<PreparedRequest, CryptoError>)
        ensures
            r is Ok,
            exists|secret: Seq<char>, n: u64|
                is_secret(secret) && REQUEST_ID_START <= n < REQUEST_ID_END && #[trigger] is_prepared(
                    r->Ok_0,
                    self@,
                    spec_@,
                    secret,
                    #[trigger] decimal(n as nat),
                ),
    {
        let entropy = RequestEntropy::random();
        let ghost secret = entropy.weapi_secret@;
        let ghost request_id = entropy.request_id@;
        proof {
            lemma_secret_is_ascii(secret);
        }
        let prepared = self.prepare_with_entropy(spec_, entropy);
        proof {
            let n = choose|n: u64|
                REQUEST_ID_START <= n < REQUEST_ID_END && request_id == #[trigger] decimal(n as nat);
            assert(is_prepared(prepared->Ok_0, self@, spec_@, secret, decimal(n as nat)));
        }
        prepared
    }

    /// Prepares a request: adds to its body what the interface expects, seals
    /// it, and says where it goes. This fails where the web interface is asked
    /// with a secret that is not sixteen bytes long.
    pub fn prepare_with_entropy(&self, spec_: ApiSpec, entropy: RequestEntropy) -> (r: Result<
        PreparedRequest,
        CryptoError,
    >)
        ensures
            match r {
                Ok(request) => is_prepared(request, self@, spec_@, entropy.weapi_secret@, entropy.request_id@),
                Err(error) => error == CryptoError::InvalidKeyLength,
            },
            r is Err <==> spec_@.crypto == CryptoMode::Weapi && encode_utf8(entropy.weapi_secret@).len() != 16,
    {
        let mut payload = spec_.payload;
        match spec_.crypto {
            CryptoMode::Weapi => {
                set_field(&mut payload, "csrf_token", text_field(self.session.csrf_token.as_str()));
                let plaintext = write_object(&payload);
                match weapi_encrypt(plaintext.as_str(), entropy.weapi_secret.as_str()) {
                    Ok(sealed) => {
                        proof {
                            reveal_strlit("/api/");
                        }
                        let path = replace_all(spec_.path.as_str(), "/api/", "/weapi/");
                        let mut query: Vec<(String, String)> = Vec::new();
                        query.push(("csrf_token".to_owned(), self.session.csrf_token.clone()));
                        let mut form: Vec<(String, String)> = Vec::new();
                        form.push(("params".to_owned(), sealed.params));
                        form.push(("encSecKey".to_owned(), sealed.enc_sec_key));
                        Ok(
                            PreparedRequest {
                                url: HOST.to_owned().concat(path.as_str()),
                                query,
                                user_agent: WEAPI_USER_AGENT,
                                referer: HOST,
                                form,
                                crypto: CryptoMode::Weapi,
                            },
                        )
                    },
                    Err(error) => Err(error),
                }
            },
            CryptoMode::Eapi => {
                let header = ApiSpec::post("", CryptoMode::Eapi).with(
                    "os",
                    text_field(self.session.os.as_str()),
                ).with("appver", text_field(self.session.appver.as_str())).with(
                    "osver",
                    text_field(self.session.osver.as_str()),
                ).with("channel", text_field(self.session.channel.as_str())).with(
                    "deviceId",
                    text_field(self.session.device_id.as_str()),
                ).with("requestId", text_field(entropy.request_id.as_str()));
                let header_text = write_object(&header.payload);
                set_field(&mut payload, "header", text_field(header_text.as_str()));
                let plaintext = write_object(&payload);
                let signing_path = replace_first(spec_.path.as_str(), "/eapi/", "/api/");
                let mut form: Vec<(String, String)> = Vec::new();
                match eapi_encrypt(signing_path.as_str(), plaintext.as_str()) {
                    Ok(params) => {
                        form.push(("params".to_owned(), params));
                    },
                    Err(error) => {
                        return Err(error);
                    },
                }
                let referer: &'static str = "";
                proof {
                    reveal_strlit("");
                    assert(referer@ =~= Seq::<char>::empty());
                }
                Ok(
                    PreparedRequest {
                        url: HOST.to_owned().concat(spec_.path.as_str()),
                        query: Vec::new(),
                        user_agent: EAPI_USER_AGENT,
                        referer,
                        form,
                        crypto: CryptoMode::Eapi,
                    },
                )
            },
        }
    }
}

// Answers.

/// What an answer says in plain bytes. An answer of the desktop interface that
/// cannot be opened is taken as it is where it starts like a JSON object.
pub fn plaintext_body(crypto: CryptoMode, body: Vec<u8>) -> (r: Result<Vec<u8>, CryptoError>)
    ensures
        match crypto {
            CryptoMode::Weapi => r is Ok && r->Ok_0@ == body@,
            CryptoMode::Eapi => match aes_ecb_opened(body@, EAPI_AES_KEY@) {
                Some(plain) => r is Ok && r->Ok_0@ == plain,
                None => if body@.len() > 0 && body@[0] == 0x7b {
                    r is Ok && r->Ok_0@ == body@
                } else {
                    r == Err::<Vec<u8>, CryptoError>(CryptoError::InvalidPadding)
                },
            },
        },
{
    match crypto {
        CryptoMode::Weapi => Ok(body),
        CryptoMode::Eapi => match eapi_decrypt(body.as_slice()) {
            Ok(plain) => Ok(plain),
            Err(error) => if body.len() > 0 && body[0] == 0x7b {
                Ok(body)
            } else {
                Err(error)
            },
        },
    }
}

pub fn is_success(status: u16) -> (r: bool)
    ensures
        r == (200 <= status < 300),
{
    200 <= status && status < 300
}

/// Whether a status says that the request may succeed later.
pub open spec fn is_retryable_status(status: u16) -> bool {
    status == 429 || 500 <= status < 600
}

pub fn retryable_status(status: u16) -> (r: bool)
    ensures
        r == is_retryable_status(status),
{
    status == 429 || (500 <= status && status < 600)
}

/// The seconds that a server asks to wait.
pub open spec fn retry_after_of(header: Option<Seq<char>>) -> Option<nat> {
    match header {
        Some(text) => match parse_unsigned_of(text, u64::MAX as nat) {
            Some(secs) => Some((secs * 1_000_000_000) as nat),
            None => None,
        },
        None => None,
    }
}

pub fn retry_after(header: Option<&str>) -> (r: Option<Duration>)
    ensures
        crate::lyrics::span_option(r) == retry_after_of(crate::lyrics::str_option(header)),
{
    match header {
        Some(text) => match parse_u64(chars_of(text).as_slice()) {
            Some(secs) => Some(Duration::from_secs(secs)),
            None => None,
        },
        None => None,
    }
}

/// How long to wait before another attempt: as long as the server asks, or else
/// twice as long after each of the first attempts.
pub open spec fn delay_of(attempt: nat, server_delay: Option<nat>) -> nat {
    match server_delay {
        Some(delay) => delay,
        None => if attempt == 0 {
            250_000_000
        } else if attempt == 1 {
            500_000_000
        } else if attempt == 2 {
            1_000_000_000
        } else {
            2_000_000_000
        },
    }
}

pub fn retry_delay(attempt: usize, server_delay: Option<Duration>) -> (r: Duration)
    ensures
        r@ == delay_of(attempt as nat, crate::lyrics::span_option(server_delay)),
{
    match server_delay {
        Some(delay) => delay,
        None => {
            let millis: u64 = match attempt {
                0 => 250,
                1 => 500,
                2 => 1_000,
                _ => 2_000,
            };
            Duration::from_millis(millis)
        },
    }
}

/// What came of an attempt.
#[derive(Clone, Copy, Debug, PartialEq, Eq, Structural)]
pub enum Attempt {
    /// The request or its answer got lost; whether that may pass.
    Lost { passing: bool },
    /// An answer came.
    Answered { status: u16, server_delay: Option<Duration> },
}

/// What to do after an attempt.
#[derive(Clone, Copy, Debug, PartialEq, Eq, Structural)]
pub enum AfterAttempt {
    /// Wait so long, and try again.
    Retry(Duration),
    /// Take the answer.
    Accept,
    /// Report the failure.
    Fail,
}

/// What to do after an attempt. As long as not too many were made, one that got
/// lost for a passing reason, or was answered with a passing failure, is made again.
pub fn after_attempt(number: usize, max_retries: usize, outcome: Attempt) -> (r: AfterAttempt)
    ensures
        match outcome {
            Attempt::Lost { passing } => if number < max_retries && passing {
                r is Retry && r->Retry_0@ == delay_of(number as nat, None)
            } else {
                r is Fail
            },
            Attempt::Answered { status, server_delay } => if is_retryable_status(status) && number < max_retries {
                r is Retry && r->Retry_0@ == delay_of(number as nat, crate::lyrics::span_option(server_delay))
            } else {
                r is Accept
            },
        },
{
    match outcome {
        Attempt::Lost { passing } => if number < max_retries && passing {
            AfterAttempt::Retry(retry_delay(number, None))
        } else {
            AfterAttempt::Fail
        },
        Attempt::Answered { status, server_delay } => if retryable_status(status) && number < max_retries {
            AfterAttempt::Retry(retry_delay(number, server_delay))
        } else {
            AfterAttempt::Accept
        },
    }
}

/// When requests may be made: no two nearer to each other than an interval.
#[derive(Clone, Copy, Debug, PartialEq, Eq, Structural)]
pub struct RequestPolicy {
    pub minimum_interval: Duration,
    pub next_request_at: Instant,
}

impl RequestPolicy {
    /// Until when a request has to wait, if it has to.
    pub fn wait_until(&self, now: Instant) -> (r: Option<Instant>)
        ensures
            r == if self.minimum_interval@ > 0 && self.next_request_at@ > now@ {
                Some(self.next_request_at)
            } else {
                None
            },
    {
        if !self.minimum_interval.is_zero() && self.next_request_at.nanos > now.nanos {
            Some(self.next_request_at)
        } else {
            None
        }
    }

    /// The policy after a request was made.
    pub open spec fn behind_request(self, now: Instant) -> RequestPolicy {
        RequestPolicy {
            next_request_at: if self.minimum_interval@ == 0 {
                self.next_request_at
            } else if now@ + self.minimum_interval@ <= u128::MAX {
                Instant { nanos: (now@ + self.minimum_interval@) as u128 }
            } else {
                Instant { nanos: u128::MAX }
            },
            ..self
        }
    }

    /// Notes that a request is made.
    pub fn taken(&mut self, now: Instant)
        ensures
            *final(self) == old(self).behind_request(now),
            final(self).minimum_interval == old(self).minimum_interval,
            final(self).next_request_at@ == if old(self).minimum_interval@ == 0 {
                old(self).next_request_at@
            } else if now@ + old(self).minimum_interval@ <= u128::MAX {
                now@ + old(self).minimum_interval@
            } else {
                u128::MAX as nat
            },
    {
        if !self.minimum_interval.is_zero() {
            self.next_request_at = now.after(self.minimum_interval);
        }
    }
}

// Downloads that go on where they stopped.

#[derive(Clone, Copy, Debug, PartialEq, Eq, Structural)]
pub enum ResumeAction {
    Append,
    Restart,
    Complete,
    RetryWithoutRange,
    Reject,
}

pub open spec fn complete_length_of(content_range: Option<Seq<char>>) -> Option<nat> {
    match content_range {
        Some(text) => if "bytes */"@.is_prefix_of(text) {
            parse_unsigned_of(text.skip(8), u64::MAX as nat)
        } else {
            None
        },
        None => None,
    }
}

pub open spec fn range_start_of(content_range: Option<Seq<char>>) -> Option<nat> {
    match content_range {
        Some(text) => if "bytes "@.is_prefix_of(text) {
            match split_once_of(text.skip(6), '-') {
                Some((start, _)) => parse_unsigned_of(start, u64::MAX as nat),
                None => None,
            }
        } else {
            None
        },
        None => None,
    }
}

/// The length of a file of which the server has nothing more.
pub fn complete_length(content_range: Option<&str>) -> (r: Option<u64>)
    ensures
        crate::json::number_option(r) == complete_length_of(crate::lyrics::str_option(content_range)),
{
    match content_range {
        Some(text) => {
            let chars = chars_of(text);
            let prefix = chars_of("bytes */");
            proof {
                reveal_strlit("bytes */");
            }
            if starts_with(chars.as_slice(), prefix.as_slice()) {
                parse_u64(skip_chars(chars.as_slice(), 8))
            } else {
                None
            }
        },
        None => None,
    }
}

/// Where the part of a file that the server sends starts.
pub fn content_range_start(content_range: Option<&str>) -> (r: Option<u64>)
    ensures
        crate::json::number_option(r) == range_start_of(crate::lyrics::str_option(content_range)),
{
    match content_range {
        Some(text) => {
            let chars = chars_of(text);
            let prefix = chars_of("bytes ");
            proof {
                reveal_strlit("bytes ");
            }
            if starts_with(chars.as_slice(), prefix.as_slice()) {
                match split_once(skip_chars(chars.as_slice(), 6), '-') {
                    Some((start, _)) => parse_u64(start),
                    None => None,
                }
            } else {
                None
            }
        },
        None => None,
    }
}

pub open spec fn resume_of(status: u16, offset: u64, content_range: Option<Seq<char>>) -> ResumeAction {
    if status == 206 && offset > 0 {
        if range_start_of(content_range) == Some(offset as nat) {
            ResumeAction::Append
        } else {
            ResumeAction::RetryWithoutRange
        }
    } else if status == 200 {
        ResumeAction::Restart
    } else if status == 416 && offset > 0 {
        if complete_length_of(content_range) == Some(offset as nat) {
            ResumeAction::Complete
        } else {
            ResumeAction::RetryWithoutRange
        }
    } else if 200 <= status < 300 && offset == 0 {
        ResumeAction::Restart
    } else {
        ResumeAction::Reject
    }
}

/// What to do with the answer to a request for the rest of a file of which
/// `offset` bytes are there.
pub fn resume_action(status: u16, offset: u64, content_range: Option<&str>) -> (r: ResumeAction)
    ensures
        r == resume_of(status, offset, crate::lyrics::str_option(content_range)),
{
    if status == 206 && offset > 0 {
        match content_range_start(content_range) {
            Some(start) => if start == offset {
                ResumeAction::Append
            } else {
                ResumeAction::RetryWithoutRange
            },
            None => ResumeAction::RetryWithoutRange,
        }
    } else if status == 200 {
        ResumeAction::Restart
    } else if status == 416 && offset > 0 {
        match complete_length(content_range) {
            Some(length) => if length == offset {
                ResumeAction::Complete
            } else {
                ResumeAction::RetryWithoutRange
            },
            None => ResumeAction::RetryWithoutRange,
        }
    } else if is_success(status) && offset == 0 {
        ResumeAction::Restart
    } else {
        ResumeAction::Reject
    }
}

/// The name of a file that is not complete yet.
pub fn partial_path(destination: &str) -> (r: String)
    ensures
        r@ == with_extension_of(
            destination@,
            (match extension_of(destination@) {
                Some(e) => e,
                None => "audio"@,
            }) + ".part"@,
        ),
{
    let mut suffix: String = match extension(destination) {
        Some(e) => e,
        None => "audio".to_owned(),
    };
    suffix.append(".part");
    with_extension(destination, suffix.as_str())
}

/// The header that asks for the rest of a file; none where nothing is there.
pub fn range_header(offset: u64) -> (r: Option<String>)
    ensures
        match r {
            Some(text) => offset > 0 && text@ == "bytes="@ + decimal(offset as nat) + "-"@,
            None => offset == 0,
        },
{
    if offset == 0 {
        return None;
    }
    let mut out: String = "bytes=".to_owned();
    out.append(decimal_text(offset).as_str());
    out.append("-");
    Some(out)
}

// Laws.

/// A secret is sixteen bytes long, as the web interface needs it.
pub proof fn lemma_secret_is_ascii(secret: Seq<char>)
    requires
        is_secret(secret),
    ensures
        encode_utf8(secret).len() == 16,
{
    reveal_strlit("PJArHa0dpwhvMNYqKnTbitWfEmosQ9527ZBx46IXUgOzD81VuSFyckLRljG3eC");
    let all = BASE62@;
    assert(ascii_from(all, 0)) by {
        reveal_with_fuel(ascii_from, 70);
    }
    lemma_ascii_from(all, 0);
    assert(vstd::utf8::is_ascii_chars(secret)) by {
        assert forall|i: int| 0 <= i < secret.len() implies '\0' <= #[trigger] secret[i] <= '\u{7f}' by {
            assert(all.contains(secret[i]));
            let k = choose|k: int| 0 <= k < all.len() && all[k] == secret[i];
            assert(all[k] <= '\u{7f}');
        }
    }
    vstd::utf8::is_ascii_chars_encode_utf8(secret);
}

spec fn ascii_from(s: Seq<char>, i: int) -> bool
    decreases s.len() - i,
{
    i < 0 || i >= s.len() || (s[i] <= '\u{7f}' && ascii_from(s, i + 1))
}

proof fn lemma_ascii_from(s: Seq<char>, i: int)
    requires
        0 <= i,
        ascii_from(s, i),
    ensures
        forall|j: int| i <= j < s.len() ==> #[trigger] s[j] <= '\u{7f}',
    decreases s.len() - i,
{
    if i < s.len() {
        lemma_ascii_from(s, i + 1);
        assert forall|j: int| i <= j < s.len() implies #[trigger] s[j] <= '\u{7f}' by {}
    }
}

/// A request without a range is never answered by another such request, and
/// nothing is appended to or taken as complete where nothing is there.
pub proof fn lemma_no_second_retry(status: u16, content_range: Option<Seq<char>>)
    ensures
        ({
            let action = resume_of(status, 0, content_range);
            action == ResumeAction::Restart || action == ResumeAction::Reject
        }),
{
}

/// Bytes are only ever appended where the server sends those that come next,
/// and a file is only taken as complete where the server has no more of it.
pub proof fn lemma_resume_is_safe(status: u16, offset: u64, content_range: Option<Seq<char>>)
    ensures
        resume_of(status, offset, content_range) == ResumeAction::Append ==> status == 206 && range_start_of(
            content_range,
        ) == Some(offset as nat),
        resume_of(status, offset, content_range) == ResumeAction::Complete ==> status == 416 && complete_length_of(
            content_range,
        ) == Some(offset as nat),
{
}

/// Without a word of the server, waiting is never longer than two seconds, and
/// never shorter after a later attempt.
pub proof fn lemma_delay_is_bounded(attempt: nat, later: nat)
    requires
        attempt <= later,
    ensures
        250_000_000 <= delay_of(attempt, None) <= delay_of(later, None) <= 2_000_000_000,
{
}

// Laws of attempts.

/// A request is made again only while tries are left: where it got lost for a
/// passing reason, or where the server is busy or failed. What gets lost for
/// good, or too often, fails, and any other answer is accepted.
pub proof fn lemma_attempts(number: usize, max_retries: usize, outcome: Attempt, r: AfterAttempt)
    requires
        call_ensures(after_attempt, (number, max_retries, outcome), r),
    ensures
        r is Retry ==> number < max_retries,
        outcome matches Attempt::Lost { passing } ==> (r is Retry <==> passing && number < max_retries) && (r is Fail
            <==> !passing || number >= max_retries),
        outcome matches Attempt::Answered { status, .. } ==> (r is Retry <==> (status == 429 || 500 <= status <= 599)
            && number < max_retries) && !(r is Fail),
        outcome matches Attempt::Answered { status, server_delay: Some(delay) } ==> (r is Retry ==> r->Retry_0@
            == delay@),
{
}

/// A server that is too busy or that failed may succeed later; no other status
/// says so.
pub proof fn lemma_retryable(status: u16)
    ensures
        is_retryable_status(429),
        500 <= status <= 599 ==> is_retryable_status(status),
        status < 500 && status != 429 ==> !is_retryable_status(status),
        status > 599 ==> !is_retryable_status(status),
{
}

/// The time to wait doubles from a quarter of a second up to two seconds, unless
/// the server says how long to wait.
pub proof fn lemma_delays(attempt: nat, delay: nat)
    ensures
        delay_of(attempt, Some(delay)) == delay,
        delay_of(0, None) == 250_000_000,
        attempt < 3 ==> delay_of(attempt + 1, None) == 2 * delay_of(attempt, None),
        attempt >= 3 ==> delay_of(attempt, None) == 2_000_000_000,
{
}

/// The seconds that a server asks to wait are waited in full.
pub proof fn lemma_retry_after(secs: u64)
    ensures
        retry_after_of(Some(decimal(secs as nat))) == Some((secs * 1_000_000_000) as nat),
        retry_after_of(None) is None,
{
    let s = decimal(secs as nat);
    crate::text::lemma_decimal_reads_back(secs as nat);
    assert(crate::text::is_digit(s[0]));
    assert(crate::text::without_plus(s) == s);
}

/// A file goes on where it stopped if the server sends the rest from there; it
/// is complete if the server has no more of it; a server that sends the whole
/// file starts it over; and where what the server says does not fit, it is asked
/// for the whole file. Without anything there, any success starts it.
pub proof fn lemma_resuming(offset: u64, other: u64, tail: Seq<char>, status: u16, content_range: Option<Seq<char>>)
    ensures
        offset > 0 ==> resume_of(206, offset, Some("bytes "@ + decimal(offset as nat) + "-"@ + tail))
            == ResumeAction::Append,
        offset > 0 && other != offset ==> resume_of(206, offset, Some("bytes "@ + decimal(other as nat) + "-"@ + tail))
            == ResumeAction::RetryWithoutRange,
        offset > 0 ==> resume_of(416, offset, Some("bytes */"@ + decimal(offset as nat))) == ResumeAction::Complete,
        offset > 0 && other != offset ==> resume_of(416, offset, Some("bytes */"@ + decimal(other as nat)))
            == ResumeAction::RetryWithoutRange,
        resume_of(200, offset, content_range) == ResumeAction::Restart,
        200 <= status < 300 ==> resume_of(status, 0, content_range) == ResumeAction::Restart,
        !(200 <= status < 300) && status != 416 ==> resume_of(status, offset, content_range) == ResumeAction::Reject,
{
    lemma_range_start(offset, tail);
    lemma_range_start(other, tail);
    lemma_complete_length(offset);
    lemma_complete_length(other);
}

proof fn lemma_plain_number(n: u64)
    ensures
        parse_unsigned_of(decimal(n as nat), u64::MAX as nat) == Some(n as nat),
        !decimal(n as nat).contains('-'),
{
    let s = decimal(n as nat);
    crate::text::lemma_decimal_reads_back(n as nat);
    assert(crate::text::is_digit(s[0]));
    assert(crate::text::without_plus(s) == s);
    if s.contains('-') {
        let i = choose|i: int| 0 <= i < s.len() && s[i] == '-';
        assert(crate::text::is_digit(s[i]));
    }
}

proof fn lemma_range_start(offset: u64, tail: Seq<char>)
    ensures
        range_start_of(Some("bytes "@ + decimal(offset as nat) + "-"@ + tail)) == Some(offset as nat),
{
    let number = decimal(offset as nat);
    let text = "bytes "@ + number + "-"@ + tail;
    reveal_strlit("bytes ");
    reveal_strlit("-");
    lemma_plain_number(offset);
    assert(text.subrange(0, 6) =~= "bytes "@);
    let rest = text.skip(6);
    assert(rest =~= number + seq!['-'] + tail);
    assert forall|i: int| 0 <= i < number.len() implies rest[i] != '-' by {
        assert(number.contains(number[i]));
    }
    crate::text::lemma_first_of_is(rest, '-', number.len() as int);
    assert(rest.take(number.len() as int) =~= number);
}

proof fn lemma_complete_length(offset: u64)
    ensures
        complete_length_of(Some("bytes */"@ + decimal(offset as nat))) == Some(offset as nat),
{
    let text = "bytes */"@ + decimal(offset as nat);
    reveal_strlit("bytes */");
    lemma_plain_number(offset);
    assert(text.subrange(0, 8) =~= "bytes */"@);
    assert(text.skip(8) =~= decimal(offset as nat));
}

/// The rest of a file is asked for from the first byte that is not there, and a
/// file of which nothing is there is asked for whole.
pub proof fn lemma_range_asked(offset: u64, r: Option<String>)
    requires
        call_ensures(range_header, (offset,), r),
    ensures
        offset > 0 ==> r is Some && r->0@ == "bytes="@ + decimal(offset as nat) + "-"@,
        offset == 0 ==> r is None,
{
}

/// A status says that a request succeeded if it is one of the two hundreds.
pub proof fn lemma_success(status: u16, r: bool)
    requires
        call_ensures(is_success, (status,), r),
    ensures
        r <==> status / 100 == 2,
{
}

/// What the web interface answers is plain; what the desktop interface answers
/// is opened, and taken as it is only where it cannot be opened and starts like
/// an object.
pub proof fn lemma_plaintext(body: Vec<u8>, r: Result<Vec<u8>, CryptoError>, s: Result<Vec<u8>, CryptoError>)
    requires
        call_ensures(plaintext_body, (CryptoMode::Weapi, body), r),
        call_ensures(plaintext_body, (CryptoMode::Eapi, body), s),
    ensures
        r is Ok && r->Ok_0@ == body@,
        aes_ecb_opened(body@, EAPI_AES_KEY@) is Some ==> s is Ok && Some(s->Ok_0@) == aes_ecb_opened(
            body@,
            EAPI_AES_KEY@,
        ),
        aes_ecb_opened(body@, EAPI_AES_KEY@) is None && body@.len() > 0 && body@[0] == '{' as u8 ==> s is Ok
            && s->Ok_0@ == body@,
        aes_ecb_opened(body@, EAPI_AES_KEY@) is None && (body@.len() == 0 || body@[0] != '{' as u8) ==> s is Err,
{
}

/// A request waits exactly as long as the last one is less than the interval
/// ago, and not at all where there is no interval.
pub proof fn lemma_requests_wait(policy: RequestPolicy, now: Instant, r: Option<Instant>)
    requires
        call_ensures(RequestPolicy::wait_until, (&policy, now), r),
    ensures
        policy.minimum_interval@ == 0 ==> r is None,
        policy.next_request_at@ <= now@ ==> r is None,
        policy.minimum_interval@ > 0 && policy.next_request_at@ > now@ ==> r == Some(policy.next_request_at),
{
}

/// After a request, the next one waits until the interval is over, counted from
/// when it was made.
pub proof fn lemma_requests_keep_distance(policy: RequestPolicy, now: Instant, later: Instant, r: Option<Instant>)
    requires
        call_ensures(RequestPolicy::wait_until, (&policy.behind_request(now), later), r),
        policy.minimum_interval@ > 0,
        now@ + policy.minimum_interval@ <= u128::MAX,
    ensures
        r is None <==> later@ >= now@ + policy.minimum_interval@,
        r is Some ==> r->0@ == now@ + policy.minimum_interval@,
        policy.behind_request(now).minimum_interval == policy.minimum_interval,
{
}

/// A request goes where the interface expects it, with the seal of that
/// interface: the web interface gets the message and the secret sealed, and the
/// token of the session; the desktop interface gets the message with its path,
/// which is signed, and says nothing of the page that it comes from.
pub proof fn lemma_requests_are_sealed(
    request: PreparedRequest,
    session: SessionView,
    spec_: ApiView,
    secret: Seq<char>,
    request_id: Seq<char>,
)
    requires
        is_prepared(request, session, spec_, secret, request_id),
    ensures
        spec_.crypto == CryptoMode::Weapi ==> request.form@.len() == 2 && request.form@[0].1@ == sealed_params(
            object_text(with_field(spec_.payload, "csrf_token"@, FieldView::Text(session.csrf_token))),
            secret,
        ) && request.form@[1].1@ == sealed_secret(secret) && request.query@.len() == 1 && request.query@[0].1@
            == session.csrf_token,
        spec_.crypto == CryptoMode::Eapi ==> request.form@.len() == 1 && request.query@.len() == 0 && request.url@
            == "https://music.163.com"@ + spec_.path && request.form@[0].1@ == hex_text(
            aes_ecb(
                encode_utf8(
                    eapi_plaintext(
                        first_replaced(spec_.path, "/eapi/"@, "/api/"@),
                        object_text(
                            with_field(
                                spec_.payload,
                                "header"@,
                                FieldView::Text(eapi_header(session, request_id)),
                            ),
                        ),
                    ),
                ),
                EAPI_AES_KEY@,
            ),
        ),
{
}

} // verus!
