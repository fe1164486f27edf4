//! A stable library layout that follows from a track's metadata.

use vstd::prelude::*;

use crate::path::{
    components_of, extension, extension_of, file_name_of, is_absolute_of, is_below_of, is_name, join, join_of,
    lemma_join, lemma_same_path_names, lemma_same_path_with_extension, lemma_with_extension,
    lemma_with_extension_twice, same_path, same_path_of, with_extension, with_extension_of,
};
use crate::text::{
    ascii_lower_of, chars_of, decimal, decimal_text, is_digit, is_white, last_of, lemma_decimal_reads_back,
    lemma_last_of, lemma_trim_end, lemma_trim_start, padded_decimal, same_chars, string_of, take_chars, to_ascii_lower,
    trim, trim_end_of, trim_of, trim_start_of, trimmed, zero_padded,
};

verus! {

#[derive(Clone, Debug, PartialEq, Eq)]
pub struct OrganizableTrack {
    pub id: u64,
    pub title: String,
    pub artists: String,
    pub album: String,
    pub album_artist: String,
    pub track_number: Option<u32>,
    pub disc_number: Option<u32>,
    pub total_tracks: Option<u32>,
    pub format: String,
    pub path: String,
}

/// What of a track decides where it belongs.
#[verifier::ext_equal]
pub struct LayoutInfo {
    pub id: u64,
    pub title: Seq<char>,
    pub artists: Seq<char>,
    pub album: Seq<char>,
    pub album_artist: Seq<char>,
    pub track_number: Option<u32>,
    pub disc_number: Option<u32>,
    pub total_tracks: Option<u32>,
    pub format: Seq<char>,
}

impl View for OrganizableTrack {
    type V = LayoutInfo;

    open spec fn view(&self) -> LayoutInfo {
        LayoutInfo {
            id: self.id,
            title: self.title@,
            artists: self.artists@,
            album: self.album@,
            album_artist: self.album_artist@,
            track_number: self.track_number,
            disc_number: self.disc_number,
            total_tracks: self.total_tracks,
            format: self.format@,
        }
    }
}

#[derive(Clone, Debug, PartialEq, Eq)]
pub enum MoveOutcome {
    Moved { from: String, to: String, bytes: u64 },
    Skipped(String),
    Conflict(String),
}

/// A character that may not stand in a file name.
pub open spec fn is_forbidden(c: char) -> bool {
    c == '<' || c == '>' || c == ':' || c == '"' || c == '/' || c == '\\' || c == '|' || c == '?' || c == '*'
        || c <= '\u{1f}'
}

/// The text with an underscore in place of each forbidden character.
pub open spec fn masked(s: Seq<char>) -> Seq<char> {
    s.map_values(|c: char| if is_forbidden(c) { '_' } else { c })
}

/// The text without points and spaces at its end.
pub open spec fn strip_points(s: Seq<char>) -> Seq<char>
    decreases s.len(),
{
    if s.len() > 0 && (s.last() == '.' || s.last() == ' ') {
        strip_points(s.drop_last())
    } else {
        s
    }
}

/// Names that some systems keep for devices.
pub open spec fn reserved_names() -> Seq<Seq<char>> {
    seq![
        "con"@, "prn"@, "aux"@, "nul"@, "com1"@, "com2"@, "com3"@, "com4"@, "com5"@, "com6"@, "com7"@, "com8"@,
        "com9"@, "lpt1"@, "lpt2"@, "lpt3"@, "lpt4"@, "lpt5"@, "lpt6"@, "lpt7"@, "lpt8"@, "lpt9"@,
    ]
}

pub open spec fn is_reserved_name(s: Seq<char>) -> bool {
    reserved_names().contains(ascii_lower_of(s))
}

/// The name before it is cut to its greatest length.
pub open spec fn full_name_of(s: Seq<char>) -> Seq<char> {
    let stripped = strip_points(trim_of(masked(s)));
    if stripped.len() == 0 {
        "Unknown"@
    } else {
        stripped
    }
}

/// The longest name that a file or directory is given.
pub const MAX_NAME: usize = 120;

/// A text as the name of a file or directory.
pub open spec fn sanitized(s: Seq<char>) -> Seq<char> {
    let name = full_name_of(s);
    if is_reserved_name(name) {
        "_"@ + name
    } else if name.len() <= MAX_NAME {
        name
    } else {
        name.take(MAX_NAME as int)
    }
}

/// The extension that a format is stored under.
pub open spec fn safe_extension_of(s: Seq<char>) -> Seq<char> {
    let lower = ascii_lower_of(s);
    if lower == "flac"@ {
        "flac"@
    } else if lower == "ogg"@ || lower == "vorbis"@ {
        "ogg"@
    } else if lower == "m4a"@ || lower == "mp4"@ || lower == "aac"@ {
        "m4a"@
    } else if lower == "wav"@ {
        "wav"@
    } else {
        "mp3"@
    }
}

/// The first of two texts that is not blank, or else a third.
pub open spec fn first_nonblank(first: Seq<char>, second: Seq<char>, fallback: Seq<char>) -> Seq<char> {
    if trim_of(first).len() > 0 {
        first
    } else if trim_of(second).len() > 0 {
        second
    } else {
        fallback
    }
}

/// How many digits a track number is written with: as many as the number of
/// tracks has, and at least two.
pub open spec fn number_width(total: Option<u32>) -> nat {
    match total {
        Some(n) => {
            let digits = decimal(if n >= 1 { n as nat } else { 1 }).len();
            if digits >= 2 {
                digits
            } else {
                2
            }
        },
        None => 2,
    }
}

pub open spec fn file_name_for(track: LayoutInfo) -> Seq<char> {
    let number = match track.track_number {
        Some(n) => n as nat,
        None => 0,
    };
    zero_padded(decimal(number), number_width(track.total_tracks)) + " "@ + sanitized(track.title) + " ["@ + decimal(
        track.id as nat,
    ) + "]."@ + safe_extension_of(track.format)
}

/// Where a track belongs: `artist/album/number title [id].extension` below the
/// root, with a directory for each disc but the first.
pub open spec fn destination_of(root: Seq<char>, track: LayoutInfo) -> Seq<char> {
    let artist = first_nonblank(track.album_artist, track.artists, "Unknown Artist"@);
    let album = first_nonblank(track.album, "Unknown Album"@, "Unknown Album"@);
    let directory = join_of(join_of(root, sanitized(artist)), sanitized(album));
    let disc = match track.disc_number {
        Some(n) => n as nat,
        None => 1,
    };
    let inner = if disc > 1 {
        join_of(directory, "CD"@ + zero_padded(decimal(disc), 2))
    } else {
        directory
    };
    join_of(inner, file_name_for(track))
}

fn mask(s: &[char]) -> (r: Vec<char>)
    ensures
        r@ == masked(s@),
{
    let mut out: Vec<char> = Vec::new();
    let mut i: usize = 0;
    while i < s.len()
        invariant
            i <= s@.len(),
            out@ == masked(s@).take(i as int),
        decreases s@.len() - i,
    {
        let c: char = s[i];
        let forbidden: bool = c == '<' || c == '>' || c == ':' || c == '"' || c == '/' || c == '\\' || c == '|' || c
            == '?' || c == '*' || c <= '\u{1f}';
        out.push(if forbidden { '_' } else { c });
        proof {
            assert(masked(s@).take(i + 1) =~= masked(s@).take(i as int).push(masked(s@)[i as int]));
        }
        i += 1;
    }
    proof {
        assert(masked(s@).take(i as int) =~= masked(s@));
    }
    out
}

fn trim_points(s: &[char]) -> (r: &[char])
    ensures
        r@ == strip_points(s@),
{
    let mut n: usize = s.len();
    proof {
        assert(s@.take(n as int) =~= s@);
    }
    while n > 0 && (s[n - 1] == '.' || s[n - 1] == ' ')
        invariant
            n <= s@.len(),
            strip_points(s@) == strip_points(s@.take(n as int)),
        decreases n,
    {
        proof {
            assert(s@.take(n as int).drop_last() =~= s@.take(n - 1));
        }
        n -= 1;
    }
    take_chars(s, n)
}

/// Whether a lower-case text is `prefix` and one digit from 1 to 9.
fn is_numbered(lower: &[char], a: char, b: char, c: char) -> (r: bool)
    ensures
        r == (lower@.len() == 4 && lower@[0] == a && lower@[1] == b && lower@[2] == c && '1' <= lower@[3] <= '9'),
{
    lower.len() == 4 && lower[0] == a && lower[1] == b && lower[2] == c && '1' <= lower[3] && lower[3] <= '9'
}

fn is_word(lower: &[char], a: char, b: char, c: char) -> (r: bool)
    ensures
        r == (lower@ == seq![a, b, c]),
{
    proof {
        if lower@.len() == 3 && lower@[0] == a && lower@[1] == b && lower@[2] == c {
            assert(lower@ =~= seq![a, b, c]);
        }
    }
    lower.len() == 3 && lower[0] == a && lower[1] == b && lower[2] == c
}

proof fn lemma_reserved(lower: Seq<char>)
    ensures
        reserved_names().contains(lower) <==> {
            ||| lower == seq!['c', 'o', 'n']
            ||| lower == seq!['p', 'r', 'n']
            ||| lower == seq!['a', 'u', 'x']
            ||| lower == seq!['n', 'u', 'l']
            ||| lower.len() == 4 && lower[0] == 'c' && lower[1] == 'o' && lower[2] == 'm' && '1' <= lower[3] <= '9'
            ||| lower.len() == 4 && lower[0] == 'l' && lower[1] == 'p' && lower[2] == 't' && '1' <= lower[3] <= '9'
        },
{
    let names = reserved_names();
    reveal_strlit("con");
    reveal_strlit("prn");
    reveal_strlit("aux");
    reveal_strlit("nul");
    reveal_strlit("com1");
    reveal_strlit("com2");
    reveal_strlit("com3");
    reveal_strlit("com4");
    reveal_strlit("com5");
    reveal_strlit("com6");
    reveal_strlit("com7");
    reveal_strlit("com8");
    reveal_strlit("com9");
    reveal_strlit("lpt1");
    reveal_strlit("lpt2");
    reveal_strlit("lpt3");
    reveal_strlit("lpt4");
    reveal_strlit("lpt5");
    reveal_strlit("lpt6");
    reveal_strlit("lpt7");
    reveal_strlit("lpt8");
    reveal_strlit("lpt9");
    assert("con"@ =~= seq!['c', 'o', 'n']);
    assert("prn"@ =~= seq!['p', 'r', 'n']);
    assert("aux"@ =~= seq!['a', 'u', 'x']);
    assert("nul"@ =~= seq!['n', 'u', 'l']);
    assert("com1"@ =~= seq!['c', 'o', 'm', '1']);
    assert("com2"@ =~= seq!['c', 'o', 'm', '2']);
    assert("com3"@ =~= seq!['c', 'o', 'm', '3']);
    assert("com4"@ =~= seq!['c', 'o', 'm', '4']);
    assert("com5"@ =~= seq!['c', 'o', 'm', '5']);
    assert("com6"@ =~= seq!['c', 'o', 'm', '6']);
    assert("com7"@ =~= seq!['c', 'o', 'm', '7']);
    assert("com8"@ =~= seq!['c', 'o', 'm', '8']);
    assert("com9"@ =~= seq!['c', 'o', 'm', '9']);
    assert("lpt1"@ =~= seq!['l', 'p', 't', '1']);
    assert("lpt2"@ =~= seq!['l', 'p', 't', '2']);
    assert("lpt3"@ =~= seq!['l', 'p', 't', '3']);
    assert("lpt4"@ =~= seq!['l', 'p', 't', '4']);
    assert("lpt5"@ =~= seq!['l', 'p', 't', '5']);
    assert("lpt6"@ =~= seq!['l', 'p', 't', '6']);
    assert("lpt7"@ =~= seq!['l', 'p', 't', '7']);
    assert("lpt8"@ =~= seq!['l', 'p', 't', '8']);
    assert("lpt9"@ =~= seq!['l', 'p', 't', '9']);
    if lower.len() == 3 {
        assert(names[0] == "con"@ && names[1] == "prn"@ && names[2] == "aux"@ && names[3] == "nul"@);
    }
    if lower.len() == 4 && '1' <= lower[3] <= '9' {
        let d = (lower[3] as int - '1' as int) as int;
        if lower[0] == 'c' && lower[1] == 'o' && lower[2] == 'm' {
            assert(names[4 + d] =~= lower);
        }
        if lower[0] == 'l' && lower[1] == 'p' && lower[2] == 't' {
            assert(names[13 + d] =~= lower);
        }
    }
}

fn is_reserved(name: &[char]) -> (r: bool)
    ensures
        r == is_reserved_name(name@),
{
    let lower = to_ascii_lower(name);
    let l = lower.as_slice();
    proof {
        lemma_reserved(lower@);
    }
    is_word(l, 'c', 'o', 'n') || is_word(l, 'p', 'r', 'n') || is_word(l, 'a', 'u', 'x') || is_word(l, 'n', 'u', 'l')
        || is_numbered(l, 'c', 'o', 'm') || is_numbered(l, 'l', 'p', 't')
}

/// A text as the name of a file or directory.
pub fn sanitize(value: &str) -> (r: String)
    ensures
        r@ == sanitized(value@),
{
    let chars = chars_of(value);
    let plain = mask(chars.as_slice());
    let stripped = trim_points(trim(plain.as_slice()));
    let unknown = chars_of("Unknown");
    let name: &[char] = if stripped.len() == 0 {
        unknown.as_slice()
    } else {
        stripped
    };
    if is_reserved(name) {
        let mut out: String = "_".to_owned();
        out.append(string_of(name).as_str());
        out
    } else if name.len() <= MAX_NAME {
        string_of(name)
    } else {
        string_of(take_chars(name, MAX_NAME))
    }
}

/// The extension that a format is stored under.
pub fn safe_extension(value: &str) -> (r: &'static str)
    ensures
        r@ == safe_extension_of(value@),
{
    let chars = chars_of(value);
    let lower = to_ascii_lower(chars.as_slice());
    let l = lower.as_slice();
    if same_chars(l, chars_of("flac").as_slice()) {
        "flac"
    } else if same_chars(l, chars_of("ogg").as_slice()) || same_chars(l, chars_of("vorbis").as_slice()) {
        "ogg"
    } else if same_chars(l, chars_of("m4a").as_slice()) || same_chars(l, chars_of("mp4").as_slice()) || same_chars(
        l,
        chars_of("aac").as_slice(),
    ) {
        "m4a"
    } else if same_chars(l, chars_of("wav").as_slice()) {
        "wav"
    } else {
        "mp3"
    }
}

fn nonempty<'a>(first: &'a str, second: &'a str, fallback: &'a str) -> (r: &'a str)
    ensures
        r@ == first_nonblank(first@, second@, fallback@),
{
    if !trimmed(first).as_str().is_empty() {
        first
    } else if !trimmed(second).as_str().is_empty() {
        second
    } else {
        fallback
    }
}

/// Where a track belongs below the root.
pub fn destination(root: &str, track: &OrganizableTrack) -> (r: String)
    ensures
        r@ == destination_of(root@, track@),
{
    let album_artist = nonempty(track.album_artist.as_str(), track.artists.as_str(), "Unknown Artist");
    let album = nonempty(track.album.as_str(), "Unknown Album", "Unknown Album");
    let width: usize = match track.total_tracks {
        Some(total) => {
            let digits: usize = decimal_text(if total >= 1 { total as u64 } else { 1 }).as_str().unicode_len();
            if digits >= 2 {
                digits
            } else {
                2
            }
        },
        None => 2,
    };
    let number: u64 = match track.track_number {
        Some(n) => n as u64,
        None => 0,
    };
    let mut file_name: String = padded_decimal(number, width);
    file_name.append(" ");
    file_name.append(sanitize(track.title.as_str()).as_str());
    file_name.append(" [");
    file_name.append(decimal_text(track.id).as_str());
    file_name.append("].");
    file_name.append(safe_extension(track.format.as_str()));
    let mut directory: String = join(
        join(root, sanitize(album_artist).as_str()).as_str(),
        sanitize(album).as_str(),
    );
    let disc: u64 = match track.disc_number {
        Some(n) => n as u64,
        None => 1,
    };
    if disc > 1 {
        let mut name: String = "CD".to_owned();
        name.append(padded_decimal(disc, 2).as_str());
        directory = join(directory.as_str(), name.as_str());
    }
    join(directory.as_str(), file_name.as_str())
}

// Moving a track and the lyrics beside it.

/// What has to be done next to move a track.
#[derive(Clone, Debug)]
pub enum MoveStep {
    /// Look whether something stands at the target.
    CheckTarget,
    /// Make the target's directory and move the audio file there.
    MoveAudio,
    /// Look whether lyrics stand beside the source and beside the target.
    CheckLyrics,
    /// Move the lyrics.
    MoveLyrics,
    /// Move the audio file back, and give up.
    MoveBack,
    /// Ask for the size of the moved file.
    Measure,
    /// The move is over.
    Done(MoveResult),
}

/// How a move ended.
#[derive(Clone, Debug)]
pub enum MoveResult {
    /// As the outcome says.
    Finished(MoveOutcome),
    /// A file operation failed.
    Failed,
}

/// What came of a step.
#[derive(Clone, Copy, Debug, PartialEq, Eq, Structural)]
pub enum MoveEvent {
    /// Something stands at the target, or nothing does.
    Target { exists: bool },
    /// Lyrics stand beside the source, and beside the target.
    Lyrics { beside_source: bool, beside_target: bool },
    /// A file operation succeeded.
    Succeeded,
    /// A file operation failed.
    Failed,
    /// The size of the moved file.
    Size(u64),
}

/// A track on its way.
pub struct TrackMove {
    pub from: String,
    pub to: String,
    pub step: MoveStep,
}

pub open spec fn next_step(from: String, to: String, step: MoveStep, event: MoveEvent) -> MoveStep {
    match (step, event) {
        (MoveStep::CheckTarget, MoveEvent::Target { exists }) => if exists {
            MoveStep::Done(MoveResult::Finished(MoveOutcome::Conflict(to)))
        } else {
            MoveStep::MoveAudio
        },
        (MoveStep::MoveAudio, MoveEvent::Succeeded) => MoveStep::CheckLyrics,
        (MoveStep::CheckLyrics, MoveEvent::Lyrics { beside_source, beside_target }) => if beside_source
            && !beside_target {
            MoveStep::MoveLyrics
        } else {
            MoveStep::Measure
        },
        (MoveStep::MoveLyrics, MoveEvent::Succeeded) => MoveStep::Measure,
        (MoveStep::MoveLyrics, MoveEvent::Failed) => MoveStep::MoveBack,
        (MoveStep::Measure, MoveEvent::Size(bytes)) => MoveStep::Done(
            MoveResult::Finished(MoveOutcome::Moved { from, to, bytes }),
        ),
        (MoveStep::Done(result), _) => MoveStep::Done(result),
        _ => MoveStep::Done(MoveResult::Failed),
    }
}

/// The first step of a move. A track that is where it belongs is left alone.
pub open spec fn first_step(from: String, to: String) -> MoveStep {
    if same_path_of(from@, to@) {
        MoveStep::Done(MoveResult::Finished(MoveOutcome::Skipped(to)))
    } else {
        MoveStep::CheckTarget
    }
}

impl TrackMove {
    /// Starts a move; a track that is where it belongs is left alone.
    pub fn start(source: &str, target: &str) -> (r: TrackMove)
        ensures
            r.from@ == source@,
            r.to@ == target@,
            r.step == first_step(r.from, r.to),
            same_path_of(source@, target@) ==> r.step == MoveStep::Done(
                MoveResult::Finished(MoveOutcome::Skipped(r.to)),
            ),
            !same_path_of(source@, target@) ==> r.step is CheckTarget,
    {
        let to: String = target.to_owned();
        if same_path(source, target) {
            let step = MoveStep::Done(MoveResult::Finished(MoveOutcome::Skipped(to.clone())));
            TrackMove { from: source.to_owned(), to, step }
        } else {
            TrackMove { from: source.to_owned(), to, step: MoveStep::CheckTarget }
        }
    }

    /// Goes on after a step. An event that the step cannot bring forth fails the move.
    pub fn advance(self, event: MoveEvent) -> (r: TrackMove)
        ensures
            r.from == self.from,
            r.to == self.to,
            r.step == next_step(self.from, self.to, self.step, event),
    {
        let TrackMove { from, to, step } = self;
        let next = match (step, event) {
            (MoveStep::CheckTarget, MoveEvent::Target { exists }) => if exists {
                MoveStep::Done(MoveResult::Finished(MoveOutcome::Conflict(to.clone())))
            } else {
                MoveStep::MoveAudio
            },
            (MoveStep::MoveAudio, MoveEvent::Succeeded) => MoveStep::CheckLyrics,
            (MoveStep::CheckLyrics, MoveEvent::Lyrics { beside_source, beside_target }) => if beside_source
                && !beside_target {
                MoveStep::MoveLyrics
            } else {
                MoveStep::Measure
            },
            (MoveStep::MoveLyrics, MoveEvent::Succeeded) => MoveStep::Measure,
            (MoveStep::MoveLyrics, MoveEvent::Failed) => MoveStep::MoveBack,
            (MoveStep::Measure, MoveEvent::Size(bytes)) => MoveStep::Done(
                MoveResult::Finished(MoveOutcome::Moved { from: from.clone(), to: to.clone(), bytes }),
            ),
            (MoveStep::Done(result), _) => MoveStep::Done(result),
            _ => MoveStep::Done(MoveResult::Failed),
        };
        TrackMove { from, to, step: next }
    }
}

/// The file moves that undo a move of a track: the audio file, and the lyrics
/// where they stand beside the target, unless the target is such a file itself.
pub open spec fn rollback_of(from: Seq<char>, to: Seq<char>, lyrics_moved: bool) -> Seq<(Seq<char>, Seq<char>)> {
    if lyrics_moved && !same_path_of(with_extension_of(to, "lrc"@), to) {
        seq![(to, from), (with_extension_of(to, "lrc"@), with_extension_of(from, "lrc"@))]
    } else {
        seq![(to, from)]
    }
}

/// The file moves that undo a move of a track.
pub fn rollback_move(from: &str, to: &str, lyrics_moved: bool) -> (r: Vec<(String, String)>)
    ensures
        r@.map_values(|rename: (String, String)| (rename.0@, rename.1@)) == rollback_of(from@, to@, lyrics_moved),
{
    let mut out: Vec<(String, String)> = Vec::new();
    out.push((to.to_owned(), from.to_owned()));
    let beside = with_extension(to, "lrc");
    if lyrics_moved && !same_path(beside.as_str(), to) {
        out.push((beside, with_extension(from, "lrc")));
    }
    proof {
        assert(out@.map_values(|rename: (String, String)| (rename.0@, rename.1@)) =~= rollback_of(
            from@,
            to@,
            lyrics_moved,
        ));
    }
    out
}

/// The name under which a file is copied before it takes the target's name.
pub fn moving_name(target: &str) -> (r: String)
    ensures
        r@ == with_extension_of(
            target@,
            (match extension_of(target@) {
                Some(e) => e,
                None => "tmp"@,
            }) + ".ncm-moving"@,
        ),
{
    let mut suffix: String = match extension(target) {
        Some(e) => e,
        None => "tmp".to_owned(),
    };
    suffix.append(".ncm-moving");
    with_extension(target, suffix.as_str())
}

// Laws.

proof fn lemma_strip_points(s: Seq<char>)
    ensures
        strip_points(s).is_prefix_of(s),
        strip_points(s).len() > 0 ==> strip_points(s).last() != '.' && strip_points(s).last() != ' ',
    decreases s.len(),
{
    if s.len() > 0 && (s.last() == '.' || s.last() == ' ') {
        lemma_strip_points(s.drop_last());
    }
}

/// A sanitized name is not empty, holds no forbidden character and no
/// separator, and is none of the reserved names.
pub proof fn lemma_sanitized(s: Seq<char>)
    ensures
        sanitized(s).len() > 0,
        forall|i: int| 0 <= i < sanitized(s).len() ==> !is_forbidden(#[trigger] sanitized(s)[i]),
        sanitized(s).len() <= MAX_NAME,
        !is_reserved_name(sanitized(s)),
{
    let m = masked(s);
    let t = trim_of(m);
    let p = strip_points(t);
    lemma_trim_start(m);
    lemma_trim_end(trim_start_of(m));
    lemma_strip_points(t);
    reveal_strlit("Unknown");
    reveal_strlit("_");
    let name = full_name_of(s);
    let skipped = m.len() - trim_start_of(m).len();
    assert forall|i: int| 0 <= i < name.len() implies !is_forbidden(#[trigger] name[i]) by {
        if p.len() > 0 {
            assert(name[i] == m[i + skipped]);
        }
    }
    let r = sanitized(s);
    lemma_reserved(ascii_lower_of(name));
    lemma_reserved(ascii_lower_of(r));
    assert forall|i: int| 0 <= i < r.len() implies !is_forbidden(#[trigger] r[i]) by {
        if is_reserved_name(name) {
            if i > 0 {
                assert(r[i] == name[i - 1]);
            }
        } else {
            assert(r[i] == name[i]);
        }
    }
    if is_reserved_name(name) {
        assert(ascii_lower_of(name).len() == name.len());
        assert(r[0] == '_');
        assert(ascii_lower_of(r)[0] == '_');
    } else if name.len() > MAX_NAME {
        assert(ascii_lower_of(r).len() == MAX_NAME);
    }
}

/// A text of ASCII characters alone.
pub open spec fn is_ascii_text(s: Seq<char>) -> bool {
    forall|i: int| 0 <= i < s.len() ==> #[trigger] s[i] <= '\u{7f}'
}

/// A name made of a short ASCII text ends neither in a point nor in a space,
/// and sanitizing it once more leaves it alone.
pub proof fn lemma_sanitized_is_fixed(s: Seq<char>)
    requires
        is_ascii_text(s),
        s.len() <= MAX_NAME,
    ensures
        sanitized(s).last() != '.',
        sanitized(s).last() != ' ',
        sanitized(sanitized(s)) == sanitized(s),
{
    let m = masked(s);
    let t = trim_of(m);
    let p = strip_points(t);
    let r = sanitized(s);
    lemma_trim_start(m);
    lemma_trim_end(trim_start_of(m));
    lemma_strip_points(t);
    lemma_sanitized(s);
    reveal_strlit("Unknown");
    reveal_strlit("_");
    assert forall|i: int| 0 <= i < m.len() && is_white(#[trigger] m[i]) implies m[i] == ' ' by {
        assert(s[i] <= '\u{7f}');
    }
    let skipped = m.len() - trim_start_of(m).len();
    let name = full_name_of(s);
    if p.len() > 0 {
        assert(p[0] == t[0] == m[skipped]);
        assert(p.last() == m[skipped + p.len() - 1]);
        assert(!is_white(name.last()));
    }
    assert(r.last() == name.last());
    assert(!is_white(r[0]));
    assert(masked(r) =~= r);
    assert(trim_start_of(r) == r);
    assert(trim_end_of(r) == r);
    assert(strip_points(r) == r);
}

/// The names in which a track's place below the root consists: those of the
/// artist, of the album, of the disc where it is not the first, and of the file.
pub open spec fn places_below_root(track: LayoutInfo) -> Seq<Seq<char>> {
    let artist = sanitized(first_nonblank(track.album_artist, track.artists, "Unknown Artist"@));
    let album = sanitized(first_nonblank(track.album, "Unknown Album"@, "Unknown Album"@));
    if track.disc_number is Some && track.disc_number->0 > 1 {
        seq![artist, album, "CD"@ + zero_padded(decimal(track.disc_number->0 as nat), 2), file_name_for(track)]
    } else {
        seq![artist, album, file_name_for(track)]
    }
}

proof fn lemma_sanitized_is_name(s: Seq<char>)
    ensures
        is_name(sanitized(s)),
        !sanitized(s).contains('/'),
{
    let r = sanitized(s);
    let t = trim_of(masked(s));
    lemma_sanitized(s);
    lemma_strip_points(t);
    reveal_strlit("Unknown");
    reveal_strlit("_");
    reveal_strlit(".");
    reveal_strlit("..");
    let name = full_name_of(s);
    if r.len() < MAX_NAME {
        assert(r.last() == name.last());
        assert(name.last() != '.');
    }
}

proof fn lemma_padded_digits(n: nat, width: nat)
    ensures
        zero_padded(decimal(n), width).len() > 0,
        forall|i: int|
            0 <= i < zero_padded(decimal(n), width).len() ==> is_digit(#[trigger] zero_padded(decimal(n), width)[i]),
{
    lemma_decimal_reads_back(n);
    let digits = decimal(n);
    let r = zero_padded(digits, width);
    assert forall|i: int| 0 <= i < r.len() implies is_digit(#[trigger] r[i]) by {
        if r.len() > digits.len() && i >= r.len() - digits.len() {
            assert(r[i] == digits[i - (r.len() - digits.len())]);
        }
    }
}

proof fn lemma_extensions(format: Seq<char>)
    ensures
        3 <= safe_extension_of(format).len() <= 4,
        forall|i: int|
            0 <= i < safe_extension_of(format).len() ==> {
                let c = #[trigger] safe_extension_of(format)[i];
                c != '/' && c != ']' && c != '[' && c != '.'
            },
{
    reveal_strlit("flac");
    reveal_strlit("ogg");
    reveal_strlit("m4a");
    reveal_strlit("wav");
    reveal_strlit("mp3");
}

/// How a file name ends: with the track's id and the extension of its format.
pub open spec fn name_ending(track: LayoutInfo) -> Seq<char> {
    " ["@ + decimal(track.id as nat) + "]."@ + safe_extension_of(track.format)
}

proof fn lemma_file_name_for(track: LayoutInfo) -> (before: Seq<char>)
    ensures
        file_name_for(track) == before + name_ending(track),
        before.len() > 0,
        is_name(file_name_for(track)),
        !file_name_for(track).contains('/'),
{
    let number = match track.track_number {
        Some(n) => n as nat,
        None => 0,
    };
    let digits = zero_padded(decimal(number), number_width(track.total_tracks));
    let title = sanitized(track.title);
    let before = digits + " "@ + title;
    let name = file_name_for(track);
    let id = decimal(track.id as nat);
    lemma_padded_digits(number, number_width(track.total_tracks));
    lemma_sanitized_is_name(track.title);
    lemma_decimal_reads_back(track.id as nat);
    lemma_extensions(track.format);
    reveal_strlit(" ");
    reveal_strlit(" [");
    reveal_strlit("].");
    reveal_strlit(".");
    reveal_strlit("..");
    assert(name =~= before + name_ending(track));
    let ending = name_ending(track);
    assert forall|i: int| 0 <= i < ending.len() implies ending[i] != '/' by {
        if 2 <= i < 2 + id.len() {
            assert(ending[i] == id[i - 2]);
        } else if i >= 4 + id.len() {
            assert(ending[i] == safe_extension_of(track.format)[i - 4 - id.len()]);
        }
    }
    assert forall|i: int| 0 <= i < before.len() implies before[i] != '/' by {
        if i < digits.len() {
            assert(before[i] == digits[i]);
        } else if i > digits.len() {
            assert(before[i] == title[i - digits.len() - 1]);
            assert(title.contains(title[i - digits.len() - 1]));
        }
    }
    assert forall|i: int| 0 <= i < name.len() implies name[i] != '/' by {
        if i < before.len() {
            assert(name[i] == before[i]);
        } else {
            assert(name[i] == ending[i - before.len()]);
        }
    }
    before
}

/// A track's place in full: the names of its artist, its album, its disc where
/// it is not the first, and its file, behind those of the root.
pub proof fn lemma_place(root: Seq<char>, track: LayoutInfo)
    ensures
        components_of(destination_of(root, track)) == components_of(root) + places_below_root(track),
        is_absolute_of(destination_of(root, track)) == is_absolute_of(root),
        is_below_of(destination_of(root, track), root),
        places_below_root(track).len() == if track.disc_number is Some && track.disc_number->0 > 1 { 4int } else { 3 },
        forall|i: int|
            0 <= i < places_below_root(track).len() ==> is_name(#[trigger] places_below_root(track)[i])
                && !places_below_root(track)[i].contains('/'),
        name_ending(track).is_suffix_of(places_below_root(track).last()),
{
    let info = track;
    let names = places_below_root(info);
    let artist_name = first_nonblank(info.album_artist, info.artists, "Unknown Artist"@);
    let album_name = first_nonblank(info.album, "Unknown Album"@, "Unknown Album"@);
    lemma_sanitized_is_name(artist_name);
    lemma_sanitized_is_name(album_name);
    let before = lemma_file_name_for(info);
    assert(file_name_for(info).skip(before.len() as int) =~= name_ending(info));
    let first = join_of(root, names[0]);
    let second = join_of(first, names[1]);
    lemma_join(root, names[0]);
    lemma_join(first, names[1]);
    let inner = if names.len() == 4 {
        let n = info.disc_number->0 as nat;
        let digits = zero_padded(decimal(n), 2);
        lemma_padded_digits(n, 2);
        reveal_strlit("CD");
        reveal_strlit(".");
        reveal_strlit("..");
        assert forall|i: int| 0 <= i < names[2].len() implies names[2][i] != '/' by {
            if i >= 2 {
                assert(names[2][i] == digits[i - 2]);
            }
        }
        assert(names[2][0] == 'C');
        lemma_join(second, names[2]);
        join_of(second, names[2])
    } else {
        second
    };
    lemma_join(inner, names.last());
    let whole = join_of(inner, names.last());
    assert(whole == destination_of(root, info));
    let base = components_of(root);
    assert(components_of(whole) =~= base + names);
    assert((base + names).subrange(0, base.len() as int) =~= base);
}

/// A track's place lies below the root, whatever its metadata hold: the root
/// is followed by exactly the three or four names of the place, none of which
/// leads anywhere else. The file name ends with the track's id and the
/// extension of its format, and where the track stands now plays no part.
pub proof fn lemma_destination(root: Seq<char>, track: OrganizableTrack, other: String)
    ensures
        is_below_of(destination_of(root, track@), root),
        is_absolute_of(destination_of(root, track@)) == is_absolute_of(root),
        components_of(destination_of(root, track@)) == components_of(root) + places_below_root(track@),
        places_below_root(track@).len() == if track.disc_number is Some && track.disc_number->0 > 1 { 4int } else { 3 },
        forall|i: int|
            0 <= i < places_below_root(track@).len() ==> is_name(#[trigger] places_below_root(track@)[i])
                && !places_below_root(track@)[i].contains('/'),
        name_ending(track@).is_suffix_of(places_below_root(track@).last()),
        destination_of(root, (OrganizableTrack { path: other, ..track })@) == destination_of(root, track@),
{
    lemma_place(root, track@);
    assert((OrganizableTrack { path: other, ..track })@ == track@);
}

/// Where the id of a track stands in its file name.
proof fn lemma_id_in_name(track: LayoutInfo)
    ensures
        ({
            let name = file_name_for(track);
            let open = last_of(name, '[');
            let close = last_of(name, ']');
            0 <= open < close < name.len() && name.subrange(open + 1, close) == decimal(track.id as nat)
        }),
{
    let name = file_name_for(track);
    let before = lemma_file_name_for(track);
    let id = decimal(track.id as nat);
    let ext = safe_extension_of(track.format);
    lemma_decimal_reads_back(track.id as nat);
    lemma_extensions(track.format);
    reveal_strlit(" [");
    reveal_strlit("].");
    let open = before.len() as int + 1;
    let close = open + 1 + id.len() as int;
    lemma_last_of(name, '[');
    lemma_last_of(name, ']');
    assert forall|i: int| open < i < name.len() implies name[i] != '[' && (i == close || name[i] != ']') by {
        if i < close {
            assert(name[i] == id[i - open - 1]);
        } else if i > close + 1 {
            assert(name[i] == ext[i - close - 2]);
        }
    }
    assert(name[open] == '[' && name[close] == ']');
    assert(name.subrange(open + 1, close) =~= id);
}

/// Tracks with different ids belong in different places, wherever the roots are.
pub proof fn lemma_destinations_differ(a_root: Seq<char>, a: OrganizableTrack, b_root: Seq<char>, b: OrganizableTrack)
    requires
        a.id != b.id,
    ensures
        !same_path_of(destination_of(a_root, a@), destination_of(b_root, b@)),
{
    lemma_destination(a_root, a, a.path);
    lemma_destination(b_root, b, b.path);
    let p = components_of(destination_of(a_root, a@));
    let q = components_of(destination_of(b_root, b@));
    assert(p.last() == file_name_for(a@));
    assert(q.last() == file_name_for(b@));
    lemma_id_in_name(a@);
    lemma_id_in_name(b@);
    lemma_decimal_reads_back(a.id as nat);
    lemma_decimal_reads_back(b.id as nat);
}

// What a move does to the files.

/// What a path names, however it is written.
#[verifier::ext_equal]
pub struct Place {
    pub absolute: bool,
    pub components: Seq<Seq<char>>,
}

pub open spec fn place_of(path: Seq<char>) -> Place {
    Place { absolute: is_absolute_of(path), components: components_of(path) }
}

/// The place of the lyrics beside a file.
pub open spec fn lyrics_place(path: Seq<char>) -> Place {
    place_of(with_extension_of(path, "lrc"@))
}

/// The files after one of them took another name.
pub open spec fn renamed(files: Map<Place, Seq<u8>>, from: Place, to: Place) -> Map<Place, Seq<u8>> {
    files.remove(from).insert(to, files[from])
}

/// What a step does to the files and what comes of it, where no file
/// operation fails on a file that is there.
pub open spec fn performed(files: Map<Place, Seq<u8>>, from: Seq<char>, to: Seq<char>, step: MoveStep) -> (
    Map<Place, Seq<u8>>,
    MoveEvent,
) {
    let source = place_of(from);
    let target = place_of(to);
    match step {
        MoveStep::CheckTarget => (files, MoveEvent::Target { exists: files.contains_key(target) }),
        MoveStep::MoveAudio => if files.contains_key(source) {
            (renamed(files, source, target), MoveEvent::Succeeded)
        } else {
            (files, MoveEvent::Failed)
        },
        MoveStep::CheckLyrics => (
            files,
            MoveEvent::Lyrics {
                beside_source: files.contains_key(lyrics_place(from)),
                beside_target: files.contains_key(lyrics_place(to)),
            },
        ),
        MoveStep::MoveLyrics => (renamed(files, lyrics_place(from), lyrics_place(to)), MoveEvent::Succeeded),
        MoveStep::MoveBack => (renamed(files, target, source), MoveEvent::Succeeded),
        MoveStep::Measure => (files, MoveEvent::Size(files[target].len() as u64)),
        MoveStep::Done(_) => (files, MoveEvent::Succeeded),
    }
}

/// How many steps a move can still take.
pub open spec fn steps_left(step: MoveStep) -> nat {
    match step {
        MoveStep::CheckTarget => 5,
        MoveStep::MoveAudio => 4,
        MoveStep::CheckLyrics => 3,
        MoveStep::MoveLyrics => 2,
        MoveStep::MoveBack => 1,
        MoveStep::Measure => 1,
        MoveStep::Done(_) => 0,
    }
}

/// The files and the result after the rest of a move.
pub open spec fn move_completed(files: Map<Place, Seq<u8>>, from: String, to: String, step: MoveStep) -> (
    Map<Place, Seq<u8>>,
    MoveResult,
)
    decreases steps_left(step),
{
    match step {
        MoveStep::Done(result) => (files, result),
        _ => {
            let (after, event) = performed(files, from@, to@, step);
            move_completed(after, from, to, next_step(from, to, step, event))
        },
    }
}

/// Whether a path names a file that holds no lyrics of its own.
pub open spec fn is_audio_path(path: Seq<char>) -> bool {
    is_name(file_name_of(path)) && extension_of(path) != Some("lrc"@)
}

proof fn lemma_lyrics_place(path: Seq<char>, audio: Seq<char>)
    requires
        is_audio_path(path),
        is_audio_path(audio),
    ensures
        lyrics_place(path) != place_of(audio),
{
    reveal_strlit("lrc");
    lemma_with_extension(path, "lrc"@);
    if lyrics_place(path) == place_of(audio) {
        lemma_same_path_names(with_extension_of(path, "lrc"@), audio);
    }
}

/// A track that is where it belongs is skipped, and one whose target is taken
/// is a conflict; either way no file changes. Any other track is moved: what
/// stood at the source stands at the target and no longer at the source, the
/// lyrics beside the source go along exactly where none stand beside the
/// target, and every other file stays as it was.
pub proof fn lemma_move(files: Map<Place, Seq<u8>>, from: String, to: String)
    requires
        is_audio_path(from@),
        is_audio_path(to@),
        files.contains_key(place_of(from@)),
        files[place_of(from@)].len() <= u64::MAX,
    ensures
        ({
            let source = place_of(from@);
            let target = place_of(to@);
            let source_lyrics = lyrics_place(from@);
            let target_lyrics = lyrics_place(to@);
            let (after, result) = move_completed(files, from, to, first_step(from, to));
            let with_lyrics = files.contains_key(source_lyrics) && !files.contains_key(target_lyrics);
            let same = same_path_of(from@, to@);
            let taken = files.contains_key(target);
            &&& result == MoveResult::Finished(MoveOutcome::Skipped(to)) <==> same
            &&& result == MoveResult::Finished(MoveOutcome::Conflict(to)) <==> !same && taken
            &&& same || taken ==> after == files
            &&& !same && !taken ==> {
                &&& result == MoveResult::Finished(
                    MoveOutcome::Moved { from, to, bytes: files[source].len() as u64 },
                )
                &&& after.contains_key(target) && after[target] == files[source]
                &&& !after.contains_key(source)
                &&& with_lyrics ==> after.contains_key(target_lyrics) && after[target_lyrics] == files[source_lyrics]
                    && !after.contains_key(source_lyrics)
                &&& forall|other: Place|
                    other != source && other != target && !(with_lyrics && (other == source_lyrics || other
                        == target_lyrics)) ==> {
                        &&& #[trigger] after.contains_key(other) == files.contains_key(other)
                        &&& after[other] == files[other]
                    }
            }
        }),
{
    let source = place_of(from@);
    let target = place_of(to@);
    lemma_lyrics_place(from@, from@);
    lemma_lyrics_place(from@, to@);
    lemma_lyrics_place(to@, from@);
    lemma_lyrics_place(to@, to@);
    reveal_with_fuel(move_completed, 6);
    if !same_path_of(from@, to@) && !files.contains_key(target) {
        let moved = renamed(files, source, target);
        assert(move_completed(files, from, to, MoveStep::CheckTarget) == move_completed(
            moved,
            from,
            to,
            MoveStep::CheckLyrics,
        ));
    }
}

/// The renames, one after the other.
pub open spec fn all_renamed(files: Map<Place, Seq<u8>>, renames: Seq<(Seq<char>, Seq<char>)>) -> Map<Place, Seq<u8>>
    decreases renames.len(),
{
    if renames.len() == 0 {
        files
    } else {
        let before = all_renamed(files, renames.drop_last());
        renamed(before, place_of(renames.last().0), place_of(renames.last().1))
    }
}

/// Rolling a move back leaves every file where it was before the move, with
/// what it held, if no lyrics stood beside the target then.
pub proof fn lemma_rollback_undoes_move(files: Map<Place, Seq<u8>>, from: String, to: String)
    requires
        !files.contains_key(lyrics_place(to@)),
        move_completed(files, from, to, first_step(from, to)).1 matches MoveResult::Finished(MoveOutcome::Moved { .. }),
    ensures
        ({
            let after = move_completed(files, from, to, first_step(from, to)).0;
            all_renamed(after, rollback_of(from@, to@, after.contains_key(lyrics_place(to@)))) == files
        }),
{
    let source = place_of(from@);
    let target = place_of(to@);
    let source_lyrics = lyrics_place(from@);
    let target_lyrics = lyrics_place(to@);
    let after = move_completed(files, from, to, first_step(from, to)).0;
    reveal_with_fuel(move_completed, 6);
    assert(!same_path_of(from@, to@) && !files.contains_key(target) && files.contains_key(source));
    let moved = renamed(files, source, target);
    assert(move_completed(files, from, to, MoveStep::CheckTarget) == move_completed(
        moved,
        from,
        to,
        MoveStep::CheckLyrics,
    ));
    if source_lyrics == target {
        reveal_strlit("lrc");
        let lyrics = with_extension_of(from@, "lrc"@);
        lemma_same_path_with_extension(lyrics, to@, "lrc"@);
        lemma_with_extension_twice(from@, "lrc"@);
        assert(target_lyrics == target);
    }
    let renames = rollback_of(from@, to@, after.contains_key(target_lyrics));
    assert(all_renamed(after, seq![]) == after);
    if moved.contains_key(source_lyrics) && !moved.contains_key(target_lyrics) {
        assert(after == renamed(moved, source_lyrics, target_lyrics));
        assert(renames.drop_last() =~= seq![(to@, from@)]);
        assert(renames.drop_last().drop_last() =~= seq![]);
        let back = renamed(after, target, source);
        assert(all_renamed(after, renames.drop_last()) == back);
        assert(renamed(back, target_lyrics, source_lyrics) =~= files);
    } else {
        assert(after == moved);
        assert(renames =~= seq![(to@, from@)]);
        assert(renames.drop_last() =~= seq![]);
        assert(renamed(after, target, source) =~= files);
    }
}

/// A move that is over stays as it ended.
pub proof fn lemma_done_is_final(from: String, to: String, result: MoveResult, event: MoveEvent)
    ensures
        next_step(from, to, MoveStep::Done(result), event) == MoveStep::Done(result),
{
}

/// A track is only ever moved to a target where nothing stands.
pub proof fn lemma_no_overwrite(from: String, to: String, step: MoveStep, event: MoveEvent)
    requires
        next_step(from, to, step, event) is MoveAudio,
    ensures
        step is CheckTarget && event == (MoveEvent::Target { exists: false }),
{
}

// Laws of names.

/// A name that holds nothing forbidden, no white space around it and no points
/// at its end, that is no device's and not too long, is kept as it is.
pub proof fn lemma_good_names_stay(s: Seq<char>)
    requires
        0 < s.len() <= 120,
        forall|i: int| 0 <= i < s.len() ==> !is_forbidden(#[trigger] s[i]),
        trim_of(s) == s,
        s.last() != '.',
        s.last() != ' ',
        !is_reserved_name(s),
    ensures
        sanitized(s) == s,
{
    assert(masked(s) =~= s);
}

/// Characters are masked one by one: a forbidden one becomes an underscore, and
/// any other stays.
pub proof fn lemma_masked(s: Seq<char>, i: int)
    requires
        0 <= i < s.len(),
    ensures
        masked(s).len() == s.len(),
        is_forbidden(s[i]) ==> masked(s)[i] == '_',
        !is_forbidden(s[i]) ==> masked(s)[i] == s[i],
        s[i] == '/' || s[i] == '\\' || s[i] == ':' || s[i] == '*' || s[i] == '?' || s[i] == '"' || s[i] == '<' || s[i]
            == '>' || s[i] == '|' || s[i] <= '\u{1f}' ==> masked(s)[i] == '_',
{
}

/// A device's name gets an underscore before it, a blank one becomes a name, and
/// a long one is cut.
pub proof fn lemma_other_names(s: Seq<char>)
    ensures
        trim_of(masked(s)).len() == 0 ==> sanitized(s) == "Unknown"@,
        is_reserved_name(full_name_of(s)) ==> sanitized(s) == "_"@ + full_name_of(s),
        !is_reserved_name(full_name_of(s)) && full_name_of(s).len() > 120 ==> sanitized(s) == full_name_of(s).take(120),
{
    if trim_of(masked(s)).len() == 0 {
        reveal_strlit("Unknown");
        lemma_reserved(ascii_lower_of("Unknown"@));
        assert(ascii_lower_of("Unknown"@).len() == 7);
    }
}

/// Each format is stored under the extension of its kind.
pub proof fn lemma_extensions_of_formats(format: Seq<char>)
    ensures
        ascii_lower_of(format) == "flac"@ ==> safe_extension_of(format) == "flac"@,
        ascii_lower_of(format) == "ogg"@ || ascii_lower_of(format) == "vorbis"@ ==> safe_extension_of(format) == "ogg"@,
        ascii_lower_of(format) == "m4a"@ || ascii_lower_of(format) == "mp4"@ || ascii_lower_of(format) == "aac"@
            ==> safe_extension_of(format) == "m4a"@,
        ascii_lower_of(format) == "wav"@ ==> safe_extension_of(format) == "wav"@,
        ascii_lower_of(format) == "mp3"@ ==> safe_extension_of(format) == "mp3"@,
{
    reveal_strlit("flac");
    reveal_strlit("ogg");
    reveal_strlit("vorbis");
    reveal_strlit("m4a");
    reveal_strlit("mp4");
    reveal_strlit("aac");
    reveal_strlit("wav");
    reveal_strlit("mp3");
    assert("flac"@[0] == 'f' && "ogg"@[0] == 'o' && "vorbis"@[0] == 'v' && "aac"@[0] == 'a' && "wav"@[0] == 'w');
    assert("m4a"@[1] == '4' && "mp4"@[1] == 'p' && "mp3"@[1] == 'p' && "mp3"@[2] == '3' && "mp4"@[2] == '4');
    assert("m4a"@[0] == 'm' && "mp4"@[0] == 'm' && "mp3"@[0] == 'm');
}

/// An album goes by its own artist, else by the artists of the track, else by
/// none; numbers are as wide as the number of tracks, and at least two digits.
pub proof fn lemma_layout_parts(first: Seq<char>, second: Seq<char>, fallback: Seq<char>, total: u32)
    ensures
        trim_of(first).len() > 0 ==> first_nonblank(first, second, fallback) == first,
        trim_of(first).len() == 0 && trim_of(second).len() > 0 ==> first_nonblank(first, second, fallback) == second,
        trim_of(first).len() == 0 && trim_of(second).len() == 0 ==> first_nonblank(first, second, fallback) == fallback,
        number_width(None) == 2,
        total < 100 ==> number_width(Some(total)) == 2,
        100 <= total < 1_000 ==> number_width(Some(total)) == 3,
{
    reveal_with_fuel(decimal, 5);
}

/// The names of a place: the artist's, the album's, that of the disc where it is
/// not the first, and that of the file, which holds the number, the title and
/// the id of the track.
pub proof fn lemma_names_of_place(track: LayoutInfo, disc: u32, number: u32)
    requires
        trim_of(track.album_artist).len() > 0,
        trim_of(track.album).len() > 0,
        track.track_number == Some(number),
    ensures
        ({
            let name = zero_padded(decimal(number as nat), number_width(track.total_tracks)) + " "@ + sanitized(
                track.title,
            ) + " ["@ + decimal(track.id as nat) + "]."@ + safe_extension_of(track.format);
            &&& track.disc_number is None || track.disc_number == Some(1u32) ==> places_below_root(track) == seq![
                sanitized(track.album_artist),
                sanitized(track.album),
                name,
            ]
            &&& track.disc_number == Some(disc) && disc > 1 ==> places_below_root(track) == seq![
                sanitized(track.album_artist),
                sanitized(track.album),
                "CD"@ + zero_padded(decimal(disc as nat), 2),
                name,
            ]
        }),
{
}

/// Where moving the lyrics fails the audio file goes back and the move fails; a
/// file operation that fails otherwise fails the move; and a move that succeeds
/// is reported with both paths and the size.
pub proof fn lemma_failed_moves(from: String, to: String, bytes: u64)
    ensures
        next_step(from, to, MoveStep::MoveLyrics, MoveEvent::Failed) == MoveStep::MoveBack,
        next_step(from, to, MoveStep::MoveBack, MoveEvent::Succeeded) == MoveStep::Done(MoveResult::Failed),
        next_step(from, to, MoveStep::MoveAudio, MoveEvent::Failed) == MoveStep::Done(MoveResult::Failed),
        next_step(from, to, MoveStep::Measure, MoveEvent::Failed) == MoveStep::Done(MoveResult::Failed),
        next_step(from, to, MoveStep::Measure, MoveEvent::Size(bytes)) == MoveStep::Done(
            MoveResult::Finished(MoveOutcome::Moved { from, to, bytes }),
        ),
        next_step(from, to, MoveStep::CheckTarget, MoveEvent::Target { exists: true }) == MoveStep::Done(
            MoveResult::Finished(MoveOutcome::Conflict(to)),
        ),
{
}

} // verus!
