//! What a scan makes of the files it finds.

use vstd::prelude::*;

use crate::database::{distinct_paths, ScannedFile};
use crate::path::{lemma_path_order, path_before, path_precedes, same_path_of};
use crate::text::{
    ascii_lower_of, chars_of, find_of, find_text, same_text, skip_chars, string_of, take_chars, to_ascii_lower, trim,
    trim_of, trimmed,
};

verus! {

/// The extensions of audio files.
pub open spec fn audio_extensions() -> Seq<Seq<char>> {
    seq!["flac"@, "mp3"@, "wav"@, "ogg"@, "m4a"@, "aac"@, "wma"@, "ape"@]
}

/// The format of a file with an extension, if it is an audio file.
pub open spec fn audio_format_of(extension: Option<Seq<char>>) -> Option<Seq<char>> {
    match extension {
        Some(e) => if audio_extensions().contains(ascii_lower_of(e)) {
            Some(ascii_lower_of(e))
        } else {
            None
        },
        None => None,
    }
}

fn is_audio_extension(lower: &str) -> (r: bool)
    ensures
        r == audio_extensions().contains(lower@),
{
    proof {
        let all = audio_extensions();
        assert(all[0] == "flac"@ && all[1] == "mp3"@ && all[2] == "wav"@ && all[3] == "ogg"@ && all[4] == "m4a"@
            && all[5] == "aac"@ && all[6] == "wma"@ && all[7] == "ape"@);
    }
    same_text(lower, "flac") || same_text(lower, "mp3") || same_text(lower, "wav") || same_text(lower, "ogg")
        || same_text(lower, "m4a") || same_text(lower, "aac") || same_text(lower, "wma") || same_text(lower, "ape")
}

/// The format of a file with an extension, if it is an audio file.
pub fn audio_format(extension: Option<&str>) -> (r: Option<String>)
    ensures
        crate::text::text_option(r) == audio_format_of(crate::lyrics::str_option(extension)),
{
    match extension {
        Some(e) => {
            let chars = chars_of(e);
            let lower = string_of(to_ascii_lower(chars.as_slice()).as_slice());
            if is_audio_extension(lower.as_str()) {
                Some(lower)
            } else {
                None
            }
        },
        None => None,
    }
}

/// Whether a file or directory is hidden.
pub fn is_hidden(name: &str) -> (r: bool)
    ensures
        r == (name@.len() > 0 && name@[0] == '.'),
{
    let chars = chars_of(name);
    chars.len() > 0 && chars[0] == '.'
}

/// The preferred text, unless it is empty.
pub fn non_empty(preferred: String, fallback: String) -> (r: String)
    ensures
        r == if preferred@.len() == 0 { fallback } else { preferred },
{
    if preferred.as_str().is_empty() {
        fallback
    } else {
        preferred
    }
}

/// The artists and the title that a file name without its extension tells.
pub open spec fn stem_parts_of(stem: Seq<char>) -> (Seq<char>, Seq<char>) {
    let i = find_of(stem, " - "@);
    let artists = trim_of(stem.take(i));
    let title = trim_of(stem.skip(i + 3));
    if i >= 0 && artists.len() > 0 && title.len() > 0 {
        (artists, title)
    } else {
        (Seq::empty(), trim_of(stem))
    }
}

/// The artists and the title that a file name without its extension tells.
pub fn parse_stem(stem: &str) -> (r: (String, String))
    ensures
        (r.0@, r.1@) == stem_parts_of(stem@),
{
    let chars = chars_of(stem);
    let separator = chars_of(" - ");
    proof {
        reveal_strlit(" - ");
    }
    match find_text(chars.as_slice(), separator.as_slice()) {
        Some(i) => {
            let artists = trim(take_chars(chars.as_slice(), i));
            assert(i + 3 <= chars.len());
            let title = trim(skip_chars(chars.as_slice(), i + 3));
            if artists.len() > 0 && title.len() > 0 {
                return (string_of(artists), string_of(title));
            }
        },
        None => {},
    }
    (String::new(), trimmed(stem))
}

/// What the tags of an audio file say.
#[derive(Clone, Debug)]
pub struct AudioMetadata {
    pub title: String,
    pub artists: String,
    pub album: String,
    pub duration_ms: u64,
    pub album_artist: String,
    pub release_year: Option<i32>,
    pub track_number: Option<u32>,
    pub disc_number: Option<u32>,
    pub bitrate: u64,
}

impl Default for AudioMetadata {
    fn default() -> (r: AudioMetadata)
        ensures
            r.title@.len() == 0,
            r.artists@.len() == 0,
            r.album@.len() == 0,
            r.duration_ms == 0,
            r.album_artist@.len() == 0,
            r.release_year is None,
            r.track_number is None,
            r.disc_number is None,
            r.bitrate == 0,
    {
        AudioMetadata {
            title: String::new(),
            artists: String::new(),
            album: String::new(),
            duration_ms: 0,
            album_artist: String::new(),
            release_year: None,
            track_number: None,
            disc_number: None,
            bitrate: 0,
        }
    }
}

/// The time of a change as it is stored; one that cannot be stored is cut.
pub open spec fn stored_time(nanos: Option<u128>) -> int {
    match nanos {
        Some(n) => if n <= i64::MAX {
            n as int
        } else {
            i64::MAX as int
        },
        None => 0,
    }
}

/// Describes an audio file, by its tags and, where they say nothing, its name.
/// `modified` is when it was changed, in nanoseconds since 1970.
pub fn describe(
    path: &str,
    format: String,
    stem: &str,
    file_size: u64,
    modified: Option<u128>,
    tags: &AudioMetadata,
) -> (r: ScannedFile)
    ensures
        r.path@ == path@,
        r.file_size == file_size,
        r.modified_ns == stored_time(modified),
        r.format == format,
        r.title@ == if trim_of(tags.title@).len() > 0 { trim_of(tags.title@) } else { stem_parts_of(stem@).1 },
        r.artists@ == if trim_of(tags.artists@).len() > 0 { trim_of(tags.artists@) } else { stem_parts_of(stem@).0 },
        r.album@ == trim_of(tags.album@),
        r.duration_ms == tags.duration_ms,
        r.album_artist@ == trim_of(tags.album_artist@),
        r.release_year == tags.release_year,
        r.track_number == tags.track_number,
        r.disc_number == tags.disc_number,
        r.bitrate == tags.bitrate,
{
    let (fallback_artists, fallback_title) = parse_stem(stem);
    let modified_ns: i64 = match modified {
        Some(n) => if n <= i64::MAX as u128 {
            n as i64
        } else {
            i64::MAX
        },
        None => 0,
    };
    ScannedFile {
        path: path.to_owned(),
        file_size,
        modified_ns,
        format,
        title: non_empty(trimmed(tags.title.as_str()), fallback_title),
        artists: non_empty(trimmed(tags.artists.as_str()), fallback_artists),
        album: trimmed(tags.album.as_str()),
        duration_ms: tags.duration_ms,
        album_artist: trimmed(tags.album_artist.as_str()),
        release_year: tags.release_year,
        track_number: tags.track_number,
        disc_number: tags.disc_number,
        bitrate: tags.bitrate,
    }
}

/// Whether no file that was found before has the path of the one at a position.
pub open spec fn is_first_found(files: Seq<ScannedFile>, i: int) -> bool {
    0 <= i < files.len() && forall|k: int|
        0 <= k < i ==> !same_path_of((#[trigger] files[k]).path@, files[i].path@)
}

/// Whether files are in the order of their paths, and no path occurs twice.
pub open spec fn in_path_order(files: Seq<ScannedFile>) -> bool {
    forall|i: int, j: int|
        0 <= i < j < files.len() ==> path_before((#[trigger] files[i]).path@, (#[trigger] files[j]).path@)
}

/// Whether some file has a path.
pub open spec fn holds_path(files: Seq<ScannedFile>, path: Seq<char>) -> bool {
    exists|j: int| 0 <= j < files.len() && same_path_of((#[trigger] files[j]).path@, path)
}

/// Whether a file is one that was found, and the first with its path.
pub open spec fn was_found_first(files: Seq<ScannedFile>, file: ScannedFile) -> bool {
    exists|i: int| #[trigger] is_first_found(files, i) && files[i] == file
}

/// How many files of a list in order stand before a path.
fn place_in_order(files: &Vec<ScannedFile>, path: &str) -> (r: usize)
    requires
        in_path_order(files@),
    ensures
        r <= files@.len(),
        forall|i: int| 0 <= i < r ==> path_before((#[trigger] files@[i]).path@, path@),
        forall|i: int| r <= i < files@.len() ==> !path_before((#[trigger] files@[i]).path@, path@),
{
    let mut low: usize = 0;
    let mut high: usize = files.len();
    while low < high
        invariant
            low <= high <= files@.len(),
            in_path_order(files@),
            forall|i: int| 0 <= i < low ==> path_before((#[trigger] files@[i]).path@, path@),
            forall|i: int| high <= i < files@.len() ==> !path_before((#[trigger] files@[i]).path@, path@),
        decreases high - low,
    {
        let middle: usize = low + (high - low) / 2;
        let before: bool = path_precedes(files[middle].path.as_str(), path);
        proof {
            let m = middle as int;
            assert forall|i: int| 0 <= i <= m && before implies path_before((#[trigger] files@[i]).path@, path@) by {
                lemma_path_order(files@[i].path@, files@[m].path@, path@);
            }
            assert forall|i: int| m <= i < files@.len() && !before implies !path_before(
                (#[trigger] files@[i]).path@,
                path@,
            ) by {
                lemma_path_order(files@[m].path@, files@[i].path@, path@);
            }
        }
        if before {
            low = middle + 1;
        } else {
            high = middle;
        }
    }
    low
}

/// Puts files in the order of their paths, and drops those whose path was found
/// before.
pub fn deduplicate_files(files: Vec<ScannedFile>) -> (r: Vec<ScannedFile>)
    ensures
        in_path_order(r@),
        distinct_paths(r@),
        forall|i: int| 0 <= i < files@.len() ==> holds_path(r@, (#[trigger] files@[i]).path@),
        forall|j: int| 0 <= j < r@.len() ==> was_found_first(files@, #[trigger] r@[j]),
{
    let mut out: Vec<ScannedFile> = Vec::new();
    for file in it: files
        invariant
            it.seq() == files@,
            in_path_order(out@),
            forall|i: int| 0 <= i < it.index() ==> holds_path(out@, (#[trigger] files@[i]).path@),
            forall|j: int| 0 <= j < out@.len() ==> was_found_first(files@, #[trigger] out@[j]),
    {
        let place: usize = place_in_order(&out, file.path.as_str());
        let ghost held = out@;
        let ghost n = it.index() as int;
        let ghost p = place as int;
        let known: bool = place < out.len() && !path_precedes(file.path.as_str(), out[place].path.as_str());
        if known {
            proof {
                lemma_path_order(held[p].path@, file.path@, file.path@);
                assert forall|i: int| 0 <= i < n + 1 implies holds_path(out@, (#[trigger] files@[i]).path@) by {
                    if i == n {
                        assert(same_path_of(out@[p].path@, files@[i].path@));
                    }
                }
            }
        } else {
            proof {
                lemma_place_is_new(files@, n, held, p, file);
            }
            out.insert(place, file);
            proof {
                lemma_inserted(files@, n, held, p, file);
            }
        }
    }
    proof {
        assert forall|i: int, j: int| 0 <= i < j < out@.len() implies (#[trigger] out@[i]).path@ != (
        #[trigger] out@[j]).path@ by {
            lemma_path_order(out@[i].path@, out@[j].path@, out@[i].path@);
        }
    }
    out
}

/// A file that stands strictly between those that are kept has a path that was
/// not found before.
proof fn lemma_place_is_new(files: Seq<ScannedFile>, n: int, kept: Seq<ScannedFile>, p: int, file: ScannedFile)
    requires
        0 <= n < files.len(),
        files[n] == file,
        in_path_order(kept),
        0 <= p <= kept.len(),
        forall|i: int| 0 <= i < p ==> path_before((#[trigger] kept[i]).path@, file.path@),
        p < kept.len() ==> path_before(file.path@, kept[p].path@),
        forall|i: int| 0 <= i < n ==> holds_path(kept, (#[trigger] files[i]).path@),
    ensures
        is_first_found(files, n),
        forall|i: int| p <= i < kept.len() ==> path_before(file.path@, (#[trigger] kept[i]).path@),
{
    assert forall|i: int| p <= i < kept.len() implies path_before(file.path@, (#[trigger] kept[i]).path@) by {
        if i > p {
            lemma_path_order(file.path@, kept[p].path@, kept[i].path@);
        }
    }
    assert forall|k: int| 0 <= k < n implies !same_path_of((#[trigger] files[k]).path@, files[n].path@) by {
        let j = choose|j: int| 0 <= j < kept.len() && same_path_of((#[trigger] kept[j]).path@, files[k].path@);
        lemma_path_order(kept[j].path@, file.path@, file.path@);
    }
}

proof fn lemma_inserted(files: Seq<ScannedFile>, n: int, kept: Seq<ScannedFile>, p: int, file: ScannedFile)
    requires
        is_first_found(files, n),
        files[n] == file,
        in_path_order(kept),
        0 <= p <= kept.len(),
        forall|i: int| 0 <= i < p ==> path_before((#[trigger] kept[i]).path@, file.path@),
        forall|i: int| p <= i < kept.len() ==> path_before(file.path@, (#[trigger] kept[i]).path@),
        forall|i: int| 0 <= i < n ==> holds_path(kept, (#[trigger] files[i]).path@),
        forall|j: int| 0 <= j < kept.len() ==> was_found_first(files, #[trigger] kept[j]),
    ensures
        in_path_order(kept.insert(p, file)),
        forall|i: int| 0 <= i < n + 1 ==> holds_path(kept.insert(p, file), (#[trigger] files[i]).path@),
        forall|j: int| 0 <= j < kept.len() + 1 ==> was_found_first(files, #[trigger] kept.insert(p, file)[j]),
{
    let r = kept.insert(p, file);
    assert forall|i: int, j: int| 0 <= i < j < r.len() implies path_before(
        (#[trigger] r[i]).path@,
        (#[trigger] r[j]).path@,
    ) by {
        if i != p && j != p {
            let a = if i < p { i } else { i - 1 };
            let b = if j < p { j } else { j - 1 };
            assert(r[i] == kept[a] && r[j] == kept[b]);
        } else if i == p {
            assert(r[j] == kept[j - 1]);
        } else {
            assert(r[i] == kept[i]);
        }
    }
    assert forall|i: int| 0 <= i < n + 1 implies holds_path(r, (#[trigger] files[i]).path@) by {
        if i == n {
            assert(same_path_of(r[p].path@, files[i].path@));
        } else {
            let j = choose|j: int| 0 <= j < kept.len() && same_path_of((#[trigger] kept[j]).path@, files[i].path@);
            let at = if j < p { j } else { j + 1 };
            assert(r[at] == kept[j]);
        }
    }
    assert forall|j: int| 0 <= j < r.len() implies was_found_first(files, #[trigger] r[j]) by {
        if j == p {
            assert(is_first_found(files, n) && files[n] == file);
        } else {
            assert(r[j] == kept[if j < p { j } else { j - 1 }]);
        }
    }
}

/// What the file name says of the artists and the title is free of white space
/// around it, and a title is only ever empty where the whole name is blank.
pub proof fn lemma_stem_parts(stem: Seq<char>)
    ensures
        trim_of(stem_parts_of(stem).0) == stem_parts_of(stem).0,
        trim_of(stem_parts_of(stem).1) == stem_parts_of(stem).1,
        stem_parts_of(stem).1.len() == 0 ==> trim_of(stem).len() == 0,
{
    let i = find_of(stem, " - "@);
    crate::text::lemma_trim_idempotent(stem);
    crate::text::lemma_trim_idempotent(stem.take(i));
    crate::text::lemma_trim_idempotent(stem.skip(i + 3));
}

// Laws of what is found.

/// A file is audio if it has one of eight extensions, in any case.
pub proof fn lemma_audio_formats(extension: Seq<char>)
    ensures
        ({
            let lower = ascii_lower_of(extension);
            let known = lower == "flac"@ || lower == "mp3"@ || lower == "wav"@ || lower == "ogg"@ || lower == "m4a"@
                || lower == "aac"@ || lower == "wma"@ || lower == "ape"@;
            &&& known ==> audio_format_of(Some(extension)) == Some(lower)
            &&& !known ==> audio_format_of(Some(extension)) is None
        }),
        audio_format_of(None) is None,
{
    let lower = ascii_lower_of(extension);
    let all = audio_extensions();
    assert(all[0] == "flac"@ && all[1] == "mp3"@ && all[2] == "wav"@ && all[3] == "ogg"@ && all[4] == "m4a"@ && all[5]
        == "aac"@ && all[6] == "wma"@ && all[7] == "ape"@);
    if all.contains(lower) {
        let i = choose|i: int| 0 <= i < all.len() && all[i] == lower;
        assert(0 <= i < 8);
    }
}

/// A file name with a dash between artists and title tells both; any other is
/// the title.
pub proof fn lemma_stems(artists: Seq<char>, title: Seq<char>, stem: Seq<char>)
    ensures
        find_of(stem, " - "@) == artists.len() && stem == artists + " - "@ + title && trim_of(artists).len() > 0
            && trim_of(title).len() > 0 ==> stem_parts_of(stem) == (trim_of(artists), trim_of(title)),
        find_of(stem, " - "@) < 0 ==> stem_parts_of(stem) == (Seq::<char>::empty(), trim_of(stem)),
{
    reveal_strlit(" - ");
    if stem == artists + " - "@ + title {
        assert(stem.take(artists.len() as int) =~= artists);
        assert(stem.skip(artists.len() as int + 3) =~= title);
    }
}

/// The tags of a file count, trimmed; for the title and the artists its name
/// does where they say nothing.
pub proof fn lemma_described(
    path: &str,
    format: String,
    stem: &str,
    file_size: u64,
    modified: Option<u128>,
    tags: AudioMetadata,
    r: ScannedFile,
)
    requires
        call_ensures(describe, (path, format, stem, file_size, modified, &tags), r),
    ensures
        r.path@ == path@ && r.file_size == file_size && r.format == format,
        trim_of(tags.title@).len() > 0 ==> r.title@ == trim_of(tags.title@),
        trim_of(tags.title@).len() == 0 ==> r.title@ == stem_parts_of(stem@).1,
        trim_of(tags.artists@).len() > 0 ==> r.artists@ == trim_of(tags.artists@),
        trim_of(tags.artists@).len() == 0 ==> r.artists@ == stem_parts_of(stem@).0,
        r.album@ == trim_of(tags.album@) && r.album_artist@ == trim_of(tags.album_artist@),
        r.duration_ms == tags.duration_ms && r.bitrate == tags.bitrate && r.release_year == tags.release_year,
        r.track_number == tags.track_number && r.disc_number == tags.disc_number,
        modified is Some && modified->0 <= i64::MAX ==> r.modified_ns == modified->0,
        modified is None ==> r.modified_ns == 0,
{
}

/// What is hidden starts with a point.
pub proof fn lemma_hidden(name: &str, r: bool, preferred: String, fallback: String, s: String)
    requires
        call_ensures(is_hidden, (name,), r),
        call_ensures(non_empty, (preferred, fallback), s),
    ensures
        r <==> name@.len() > 0 && name@[0] == '.',
        preferred@.len() > 0 ==> s == preferred,
        preferred@.len() == 0 ==> s == fallback,
{
}

} // verus!
