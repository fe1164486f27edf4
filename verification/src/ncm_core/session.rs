//! The credentials and the device that requests are made with.

use vstd::prelude::*;

use crate::text::{chars_of, same_chars, slices, split_char, split_of, split_once, split_once_of, string_of, trim, trim_of};

verus! {

#[derive(Clone, Debug)]
pub struct SessionConfig {
    pub music_u: String,
    pub csrf_token: String,
    pub os: String,
    pub appver: String,
    pub osver: String,
    pub channel: String,
    pub device_id: String,
}

#[verifier::ext_equal]
pub struct SessionView {
    pub music_u: Seq<char>,
    pub csrf_token: Seq<char>,
    pub os: Seq<char>,
    pub appver: Seq<char>,
    pub osver: Seq<char>,
    pub channel: Seq<char>,
    pub device_id: Seq<char>,
}

impl View for SessionConfig {
    type V = SessionView;

    open spec fn view(&self) -> SessionView {
        SessionView {
            music_u: self.music_u@,
            csrf_token: self.csrf_token@,
            os: self.os@,
            appver: self.appver@,
            osver: self.osver@,
            channel: self.channel@,
            device_id: self.device_id@,
        }
    }
}

/// The session of a device that is not logged in, but for its credentials.
pub open spec fn session_with(music_u: Seq<char>, csrf_token: Seq<char>) -> SessionView {
    SessionView {
        music_u,
        csrf_token,
        os: "iPhone OS"@,
        appver: "10.0.0"@,
        osver: "16.2"@,
        channel: "distribution"@,
        device_id: "pyncm!"@,
    }
}

impl Default for SessionConfig {
    fn default() -> (r: SessionConfig)
        ensures
            r@ == session_with(Seq::empty(), Seq::empty()),
    {
        SessionConfig {
            music_u: String::new(),
            csrf_token: String::new(),
            os: "iPhone OS".to_owned(),
            appver: "10.0.0".to_owned(),
            osver: "16.2".to_owned(),
            channel: "distribution".to_owned(),
            device_id: "pyncm!".to_owned(),
        }
    }
}

impl SessionConfig {
    /// A session with the credentials of a login.
    pub fn with_cookie(music_u: &str, csrf_token: &str) -> (r: SessionConfig)
        ensures
            r@ == session_with(music_u@, csrf_token@),
    {
        SessionConfig {
            music_u: music_u.to_owned(),
            csrf_token: csrf_token.to_owned(),
            os: "iPhone OS".to_owned(),
            appver: "10.0.0".to_owned(),
            osver: "16.2".to_owned(),
            channel: "distribution".to_owned(),
            device_id: "pyncm!".to_owned(),
        }
    }

    /// A copy of the session.
    pub fn copy(&self) -> (r: SessionConfig)
        ensures
            r@ == self@,
    {
        SessionConfig {
            music_u: self.music_u.clone(),
            csrf_token: self.csrf_token.clone(),
            os: self.os.clone(),
            appver: self.appver.clone(),
            osver: self.osver.clone(),
            channel: self.channel.clone(),
            device_id: self.device_id.clone(),
        }
    }
}

// Cookies.

/// The session after a cookie was read: only the two credentials matter.
pub open spec fn with_cookie_piece(session: SessionView, piece: Seq<char>) -> SessionView {
    match split_once_of(trim_of(piece), '=') {
        Some((name, value)) => if name == "MUSIC_U"@ {
            SessionView { music_u: value, ..session }
        } else if name == "__csrf"@ {
            SessionView { csrf_token: value, ..session }
        } else {
            session
        },
        None => session,
    }
}

pub open spec fn with_cookie_pieces(session: SessionView, pieces: Seq<Seq<char>>) -> SessionView
    decreases pieces.len(),
{
    if pieces.len() == 0 {
        session
    } else {
        with_cookie_piece(with_cookie_pieces(session, pieces.drop_last()), pieces.last())
    }
}

/// The session after a header with cookies was read.
pub open spec fn with_cookie_header(session: SessionView, header: Seq<char>) -> SessionView {
    with_cookie_pieces(session, split_of(header, ';'))
}

/// Takes the credentials out of a header with cookies.
pub fn apply_cookie_header(session: &mut SessionConfig, header: &str)
    ensures
        final(session)@ == with_cookie_header(old(session)@, header@),
{
    let ghost start = session@;
    let chars = chars_of(header);
    let pieces = split_char(chars.as_slice(), ';');
    let music_u = chars_of("MUSIC_U");
    let csrf = chars_of("__csrf");
    let ghost all = slices(pieces@);
    let mut i: usize = 0;
    proof {
        assert(all.take(0) =~= seq![]);
    }
    while i < pieces.len()
        invariant
            i <= pieces@.len(),
            all == slices(pieces@),
            music_u@ == "MUSIC_U"@,
            csrf@ == "__csrf"@,
            session@ == with_cookie_pieces(start, all.take(i as int)),
        decreases pieces@.len() - i,
    {
        let ghost before = session@;
        proof {
            assert(all.take(i + 1).drop_last() =~= all.take(i as int));
            assert(all.take(i + 1).last() == pieces@[i as int]@);
        }
        if let Some((name, value)) = split_once(trim(pieces[i]), '=') {
            if same_chars(name, music_u.as_slice()) {
                session.music_u = string_of(value);
            } else if same_chars(name, csrf.as_slice()) {
                session.csrf_token = string_of(value);
            }
        }
        proof {
            assert(session@ =~= with_cookie_piece(before, pieces@[i as int]@));
        }
        i += 1;
    }
    proof {
        assert(all.take(i as int) =~= all);
    }
}

/// A cookie as it is given to the service.
pub open spec fn cookie_of(name: Seq<char>, value: Seq<char>) -> Seq<char> {
    name + "="@ + value + "; Domain=music.163.com; Path=/"@
}

fn push_cookie(out: &mut Vec<String>, name: &str, value: &str)
    ensures
        crate::text::texts(final(out)@) == crate::text::texts(old(out)@).push(cookie_of(name@, value@)),
{
    let mut cookie: String = name.to_owned();
    cookie.append("=");
    cookie.append(value);
    cookie.append("; Domain=music.163.com; Path=/");
    let ghost held = out@;
    out.push(cookie);
    proof {
        assert(crate::text::texts(out@) =~= crate::text::texts(held).push(cookie@));
    }
}

/// The cookies that describe the device.
pub open spec fn device_cookies(session: SessionView) -> Seq<Seq<char>> {
    seq![
        cookie_of("os"@, session.os),
        cookie_of("appver"@, session.appver),
        cookie_of("osver"@, session.osver),
        cookie_of("channel"@, session.channel),
        cookie_of("deviceId"@, session.device_id),
    ]
}

/// The cookies of a session: those of the device, and the credentials that it has.
pub open spec fn cookies_of(session: SessionView) -> Seq<Seq<char>> {
    device_cookies(session) + (if session.music_u.len() > 0 {
        seq![cookie_of("MUSIC_U"@, session.music_u)]
    } else {
        seq![]
    }) + (if session.csrf_token.len() > 0 {
        seq![cookie_of("__csrf"@, session.csrf_token)]
    } else {
        seq![]
    })
}

/// The cookies of a session.
pub fn seed_cookies(session: &SessionConfig) -> (r: Vec<String>)
    ensures
        crate::text::texts(r@) == cookies_of(session@),
{
    let mut out: Vec<String> = Vec::new();
    push_cookie(&mut out, "os", session.os.as_str());
    push_cookie(&mut out, "appver", session.appver.as_str());
    push_cookie(&mut out, "osver", session.osver.as_str());
    push_cookie(&mut out, "channel", session.channel.as_str());
    push_cookie(&mut out, "deviceId", session.device_id.as_str());
    proof {
        assert(crate::text::texts(out@) =~= device_cookies(session@));
    }
    if !session.music_u.as_str().is_empty() {
        push_cookie(&mut out, "MUSIC_U", session.music_u.as_str());
    }
    if !session.csrf_token.as_str().is_empty() {
        push_cookie(&mut out, "__csrf", session.csrf_token.as_str());
    }
    proof {
        assert(crate::text::texts(out@) =~= cookies_of(session@));
    }
    out
}

/// A header never changes what a session says of the device.
pub proof fn lemma_cookies_keep_device(session: SessionView, pieces: Seq<Seq<char>>)
    ensures
        with_cookie_pieces(session, pieces).os == session.os,
        with_cookie_pieces(session, pieces).appver == session.appver,
        with_cookie_pieces(session, pieces).osver == session.osver,
        with_cookie_pieces(session, pieces).channel == session.channel,
        with_cookie_pieces(session, pieces).device_id == session.device_id,
    decreases pieces.len(),
{
    if pieces.len() > 0 {
        lemma_cookies_keep_device(session, pieces.drop_last());
    }
}

/// Cookies are read one by one: the credentials are taken from their own
/// cookies, the latest counts, and other cookies change nothing.
pub proof fn lemma_cookies_read(session: SessionView, name: Seq<char>, value: Seq<char>)
    requires
        !name.contains('='),
        trim_of(name + seq!['='] + value) == name + seq!['='] + value,
    ensures
        name == "MUSIC_U"@ ==> with_cookie_piece(session, name + seq!['='] + value) == (SessionView {
            music_u: value,
            ..session
        }),
        name == "__csrf"@ ==> with_cookie_piece(session, name + seq!['='] + value) == (SessionView {
            csrf_token: value,
            ..session
        }),
        name != "MUSIC_U"@ && name != "__csrf"@ ==> with_cookie_piece(session, name + seq!['='] + value) == session,
{
    let piece = name + seq!['='] + value;
    assert forall|i: int| 0 <= i < name.len() implies piece[i] != '=' by {
        assert(name.contains(name[i]));
    }
    crate::text::lemma_first_of_is(piece, '=', name.len() as int);
    assert(piece.take(name.len() as int) =~= name);
    assert(piece.skip(name.len() as int + 1) =~= value);
    reveal_strlit("MUSIC_U");
    reveal_strlit("__csrf");
}

/// A header is read cookie by cookie, in order.
pub proof fn lemma_header_read(session: SessionView, pieces: Seq<Seq<char>>, piece: Seq<char>)
    ensures
        with_cookie_pieces(session, pieces.push(piece)) == with_cookie_piece(
            with_cookie_pieces(session, pieces),
            piece,
        ),
        with_cookie_pieces(session, seq![]) == session,
{
    assert(pieces.push(piece).drop_last() =~= pieces);
}

/// A session gives the service its device and the credentials that it has, each
/// under its own name.
pub proof fn lemma_session_cookies(session: SessionView)
    ensures
        cookies_of(session).len() == 5 + (if session.music_u.len() > 0 { 1int } else { 0 }) + (if session.csrf_token.len()
            > 0 { 1int } else { 0 }),
        cookies_of(session)[0] == "os"@ + "="@ + session.os + "; Domain=music.163.com; Path=/"@,
        cookies_of(session)[1] == "appver"@ + "="@ + session.appver + "; Domain=music.163.com; Path=/"@,
        cookies_of(session)[2] == "osver"@ + "="@ + session.osver + "; Domain=music.163.com; Path=/"@,
        cookies_of(session)[3] == "channel"@ + "="@ + session.channel + "; Domain=music.163.com; Path=/"@,
        cookies_of(session)[4] == "deviceId"@ + "="@ + session.device_id + "; Domain=music.163.com; Path=/"@,
        session.music_u.len() > 0 ==> cookies_of(session)[5] == "MUSIC_U"@ + "="@ + session.music_u
            + "; Domain=music.163.com; Path=/"@,
        session.csrf_token.len() > 0 ==> cookies_of(session).last() == "__csrf"@ + "="@ + session.csrf_token
            + "; Domain=music.163.com; Path=/"@,
{
}

/// A session with credentials holds them, each in its place.
pub proof fn lemma_session_with(music_u: Seq<char>, csrf_token: Seq<char>)
    ensures
        session_with(music_u, csrf_token).music_u == music_u,
        session_with(music_u, csrf_token).csrf_token == csrf_token,
{
}

} // verus!
