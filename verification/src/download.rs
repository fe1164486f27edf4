//! Fine-grained download orchestration: what is selected, what has to be
//! fetched, where it goes and what is reported.

use std::collections::{HashMap, HashSet};
use std::ops::RangeInclusive;

use vstd::prelude::*;

use crate::discovery::{append_unique, fresh, lemma_fresh};
use crate::database::DownloadedTrack;
use crate::organizer::{
    destination, destination_of, lemma_place, safe_extension, safe_extension_of, sanitized, LayoutInfo, OrganizableTrack,
};
use crate::path::components_of;
use crate::sorting::{is_sorted_by, lemma_insert_position, lemma_sorted_by, sorted_by};
use crate::json::{array_at, either, either_of, items_at_of, string_at, string_at_of, Json};
use crate::text::{
    chars_of, decimal, find_char, is_digit, join, joined, lines, lines_of, parse_unsigned, parse_unsigned_of, same_text, slices,
    string_of, take_chars, text_option, texts, trim, trim_of, zero_padded,
};

verus! {

broadcast use vstd::std_specs::hash::group_hash_axioms;

#[derive(Clone, Debug, PartialEq, Eq)]
pub enum DownloadSource {
    Track(u64),
    Tracks(Vec<u64>),
    Playlist(u64),
    Album(u64),
}

#[derive(Debug, PartialEq, Eq)]
pub enum TrackSelection {
    All,
    /// One-based positions within a playlist or album.
    Positions(RangeInclusive<usize>),
    /// Intersects these ids with the source while preserving source order.
    TrackIds(HashSet<u64>),
}

#[derive(Clone, Copy, Debug, PartialEq, Eq, Structural)]
pub enum AudioQuality {
    Standard,
    Higher,
    ExHigh,
    Lossless,
    HiRes,
    Jyeffect,
    Sky,
    Dolby,
    Jymaster,
}

#[derive(Debug)]
pub struct DownloadRequest {
    pub source: DownloadSource,
    pub selection: TrackSelection,
    pub quality: AudioQuality,
    pub overwrite: bool,
}

#[derive(Clone, Debug)]
pub struct DownloadReport {
    pub requested: usize,
    pub downloaded: Vec<DownloadedFile>,
    pub skipped_existing: Vec<u64>,
    pub unavailable: Vec<u64>,
    pub warnings: Vec<DownloadWarning>,
}

#[derive(Clone, Debug)]
pub struct DownloadedFile {
    pub track_id: u64,
    pub title: String,
    pub path: String,
    pub bytes: u64,
    pub requested_quality: AudioQuality,
    pub actual_quality: AudioQuality,
    pub format: String,
}

#[derive(Clone, Copy, Debug, PartialEq, Eq, Structural)]
pub enum DownloadWarningStage {
    Lyrics,
    Cover,
    Tagging,
    Sidecar,
}

#[derive(Clone, Debug)]
pub struct DownloadWarning {
    pub track_id: u64,
    pub stage: DownloadWarningStage,
    pub message: String,
}

impl Default for TrackSelection {
    fn default() -> (r: TrackSelection)
        ensures
            r is All,
    {
        TrackSelection::All
    }
}

impl Default for AudioQuality {
    fn default() -> (r: AudioQuality)
        ensures
            r == AudioQuality::Lossless,
    {
        AudioQuality::Lossless
    }
}

impl DownloadRequest {
    /// A request for one track in the usual quality.
    pub fn track(id: u64) -> (r: DownloadRequest)
        ensures
            r.source == DownloadSource::Track(id),
            r.selection is All,
            r.quality == AudioQuality::Lossless,
            !r.overwrite,
    {
        DownloadRequest {
            source: DownloadSource::Track(id),
            selection: TrackSelection::All,
            quality: AudioQuality::Lossless,
            overwrite: false,
        }
    }
}

// Qualities.

/// The quality that is tried when this one cannot be had.
pub open spec fn lower_quality(quality: AudioQuality) -> Option<AudioQuality> {
    match quality {
        AudioQuality::Standard => None,
        AudioQuality::Higher => Some(AudioQuality::Standard),
        AudioQuality::ExHigh => Some(AudioQuality::Higher),
        AudioQuality::Lossless => Some(AudioQuality::ExHigh),
        AudioQuality::HiRes => Some(AudioQuality::Lossless),
        AudioQuality::Jyeffect => Some(AudioQuality::HiRes),
        AudioQuality::Sky => Some(AudioQuality::HiRes),
        AudioQuality::Dolby => Some(AudioQuality::HiRes),
        AudioQuality::Jymaster => Some(AudioQuality::HiRes),
    }
}

/// How many steps a quality is above the lowest one.
pub open spec fn quality_rank(quality: AudioQuality) -> nat {
    match quality {
        AudioQuality::Standard => 0,
        AudioQuality::Higher => 1,
        AudioQuality::ExHigh => 2,
        AudioQuality::Lossless => 3,
        AudioQuality::HiRes => 4,
        _ => 5,
    }
}

/// The qualities that are tried, from the one that is wanted down.
pub open spec fn chain_of(quality: AudioQuality) -> Seq<AudioQuality>
    decreases quality_rank(quality),
{
    match lower_quality(quality) {
        Some(lower) => seq![quality] + chain_of(lower),
        None => seq![quality],
    }
}

pub open spec fn level_of(quality: AudioQuality) -> Seq<char> {
    match quality {
        AudioQuality::Standard => "standard"@,
        AudioQuality::Higher => "higher"@,
        AudioQuality::ExHigh => "exhigh"@,
        AudioQuality::Lossless => "lossless"@,
        AudioQuality::HiRes => "hires"@,
        AudioQuality::Jyeffect => "jyeffect"@,
        AudioQuality::Sky => "sky"@,
        AudioQuality::Dolby => "dolby"@,
        AudioQuality::Jymaster => "jymaster"@,
    }
}

pub open spec fn quality_of(level: Seq<char>) -> Option<AudioQuality> {
    if level == "standard"@ {
        Some(AudioQuality::Standard)
    } else if level == "higher"@ {
        Some(AudioQuality::Higher)
    } else if level == "exhigh"@ {
        Some(AudioQuality::ExHigh)
    } else if level == "lossless"@ {
        Some(AudioQuality::Lossless)
    } else if level == "hires"@ {
        Some(AudioQuality::HiRes)
    } else if level == "jyeffect"@ {
        Some(AudioQuality::Jyeffect)
    } else if level == "sky"@ {
        Some(AudioQuality::Sky)
    } else if level == "dolby"@ {
        Some(AudioQuality::Dolby)
    } else if level == "jymaster"@ {
        Some(AudioQuality::Jymaster)
    } else {
        None
    }
}

impl AudioQuality {
    /// The name of the quality in requests.
    pub fn api_level(self) -> (r: &'static str)
        ensures
            r@ == level_of(self),
    {
        match self {
            AudioQuality::Standard => "standard",
            AudioQuality::Higher => "higher",
            AudioQuality::ExHigh => "exhigh",
            AudioQuality::Lossless => "lossless",
            AudioQuality::HiRes => "hires",
            AudioQuality::Jyeffect => "jyeffect",
            AudioQuality::Sky => "sky",
            AudioQuality::Dolby => "dolby",
            AudioQuality::Jymaster => "jymaster",
        }
    }

    /// The encoding that is asked for.
    pub fn encode_type(self) -> (r: &'static str)
        ensures
            r@ == if quality_rank(self) <= 2 { "mp3"@ } else { "flac"@ },
    {
        match self {
            AudioQuality::Standard | AudioQuality::Higher | AudioQuality::ExHigh => "mp3",
            _ => "flac",
        }
    }

    /// The quality that is tried when this one cannot be had.
    pub fn lower(self) -> (r: Option<AudioQuality>)
        ensures
            r == lower_quality(self),
    {
        match self {
            AudioQuality::Standard => None,
            AudioQuality::Higher => Some(AudioQuality::Standard),
            AudioQuality::ExHigh => Some(AudioQuality::Higher),
            AudioQuality::Lossless => Some(AudioQuality::ExHigh),
            AudioQuality::HiRes => Some(AudioQuality::Lossless),
            AudioQuality::Jyeffect | AudioQuality::Sky | AudioQuality::Dolby | AudioQuality::Jymaster => Some(
                AudioQuality::HiRes,
            ),
        }
    }

    /// The qualities that are tried, from this one down.
    pub fn fallback_chain(self) -> (r: Vec<AudioQuality>)
        ensures
            r@ == chain_of(self),
    {
        let mut out: Vec<AudioQuality> = Vec::new();
        let mut current: AudioQuality = self;
        proof {
            assert(out@ + chain_of(self) =~= chain_of(self));
        }
        loop
            invariant
                out@ + chain_of(current) == chain_of(self),
            decreases quality_rank(current),
        {
            let ghost held = out@;
            out.push(current);
            match current.lower() {
                Some(lower) => {
                    proof {
                        assert(held + (seq![current] + chain_of(lower)) =~= out@ + chain_of(lower));
                    }
                    current = lower;
                },
                None => {
                    proof {
                        assert(held + seq![current] =~= out@);
                    }
                    return out;
                },
            }
        }
    }

    /// The quality that a name in an answer stands for.
    pub fn from_api_level(value: &str) -> (r: Option<AudioQuality>)
        ensures
            r == quality_of(value@),
    {
        if same_text(value, "standard") {
            Some(AudioQuality::Standard)
        } else if same_text(value, "higher") {
            Some(AudioQuality::Higher)
        } else if same_text(value, "exhigh") {
            Some(AudioQuality::ExHigh)
        } else if same_text(value, "lossless") {
            Some(AudioQuality::Lossless)
        } else if same_text(value, "hires") {
            Some(AudioQuality::HiRes)
        } else if same_text(value, "jyeffect") {
            Some(AudioQuality::Jyeffect)
        } else if same_text(value, "sky") {
            Some(AudioQuality::Sky)
        } else if same_text(value, "dolby") {
            Some(AudioQuality::Dolby)
        } else if same_text(value, "jymaster") {
            Some(AudioQuality::Jymaster)
        } else {
            None
        }
    }
}

/// The chain starts with the quality that is wanted, goes down step by step,
/// and ends with the lowest one.
pub proof fn lemma_chain(quality: AudioQuality)
    ensures
        chain_of(quality).len() == quality_rank(quality) + 1,
        chain_of(quality)[0] == quality,
        chain_of(quality).last() == AudioQuality::Standard,
        forall|i: int|
            0 <= i < chain_of(quality).len() ==> quality_rank(#[trigger] chain_of(quality)[i]) == quality_rank(quality)
                - i,
    decreases quality_rank(quality),
{
    match lower_quality(quality) {
        Some(lower) => {
            lemma_chain(lower);
            assert forall|i: int| 0 <= i < chain_of(quality).len() implies quality_rank(
                #[trigger] chain_of(quality)[i],
            ) == quality_rank(quality) - i by {
                if i > 0 {
                    assert(chain_of(quality)[i] == chain_of(lower)[i - 1]);
                }
            }
        },
        None => {},
    }
}

/// The name of a quality stands for that quality.
pub proof fn lemma_level_round_trip(quality: AudioQuality)
    ensures
        quality_of(level_of(quality)) == Some(quality),
{
    reveal_strlit("standard");
    reveal_strlit("higher");
    reveal_strlit("exhigh");
    reveal_strlit("lossless");
    reveal_strlit("hires");
    reveal_strlit("jyeffect");
    reveal_strlit("sky");
    reveal_strlit("dolby");
    reveal_strlit("jymaster");
    assert("standard"@[0] == 's' && "sky"@[0] == 's' && "standard"@.len() == 8 && "sky"@.len() == 3);
    assert("higher"@[0] == 'h' && "hires"@[0] == 'h' && "higher"@.len() == 6 && "hires"@.len() == 5);
    assert("exhigh"@[0] == 'e' && "exhigh"@.len() == 6);
    assert("lossless"@[0] == 'l' && "lossless"@.len() == 8);
    assert("jyeffect"@[2] == 'e' && "jymaster"@[2] == 'm' && "jyeffect"@[0] == 'j' && "jymaster"@[0] == 'j');
    assert("dolby"@[0] == 'd' && "dolby"@.len() == 5);
}

// Selections.

/// The ids at the positions that a range holds, which count from one.
pub open spec fn at_positions(ids: Seq<u64>, range: RangeInclusive<usize>) -> Seq<u64>
    decreases ids.len(),
{
    if ids.len() == 0 {
        ids
    } else {
        let before = at_positions(ids.drop_last(), range);
        if range@.start <= ids.len() && (if range@.exhausted {
            ids.len() < range@.end
        } else {
            ids.len() <= range@.end
        }) {
            before.push(ids.last())
        } else {
            before
        }
    }
}

/// The ids that are wanted, in their order.
pub open spec fn among(ids: Seq<u64>, wanted: Set<u64>) -> Seq<u64>
    decreases ids.len(),
{
    if ids.len() == 0 {
        ids
    } else {
        let before = among(ids.drop_last(), wanted);
        if wanted.contains(ids.last()) {
            before.push(ids.last())
        } else {
            before
        }
    }
}

/// The ids without repeats, in the order in which they first occur.
pub open spec fn deduplicated(ids: Seq<u64>) -> Seq<u64> {
    fresh(Set::empty(), ids)
}

pub open spec fn selected(ids: Seq<u64>, selection: TrackSelection) -> Seq<u64> {
    deduplicated(
        match selection {
            TrackSelection::All => ids,
            TrackSelection::Positions(range) => at_positions(ids, range),
            TrackSelection::TrackIds(wanted) => among(ids, wanted@),
        },
    )
}

/// The ids without repeats.
pub fn deduplicate(ids: &Vec<u64>) -> (r: Vec<u64>)
    ensures
        r@ == deduplicated(ids@),
{
    let mut out: Vec<u64> = Vec::new();
    let mut seen: HashSet<u64> = HashSet::new();
    append_unique(&mut out, &mut seen, crate::catalog::copy_ids(ids));
    proof {
        assert(Seq::<u64>::empty() + deduplicated(ids@) =~= deduplicated(ids@));
    }
    out
}

/// The ids that are in a set, in their order.
pub fn keep_among(ids: &Vec<u64>, wanted: &HashSet<u64>) -> (r: Vec<u64>)
    ensures
        r@ == among(ids@, wanted@),
{
    let mut out: Vec<u64> = Vec::new();
    let mut i: usize = 0;
    proof {
        assert(ids@.take(0) =~= seq![]);
    }
    while i < ids.len()
        invariant
            i <= ids@.len(),
            out@ == among(ids@.take(i as int), wanted@),
        decreases ids@.len() - i,
    {
        proof {
            assert(ids@.take(i + 1).drop_last() =~= ids@.take(i as int));
        }
        if wanted.contains(&ids[i]) {
            out.push(ids[i]);
        }
        i += 1;
    }
    proof {
        assert(ids@.take(i as int) =~= ids@);
    }
    out
}

/// The ids that are not in a set, in their order.
pub fn keep_missing(ids: &Vec<u64>, known: &HashSet<u64>) -> (r: Vec<u64>)
    ensures
        r@ == among(ids@, known@.complement()),
{
    let mut out: Vec<u64> = Vec::new();
    let mut i: usize = 0;
    proof {
        assert(ids@.take(0) =~= seq![]);
    }
    while i < ids.len()
        invariant
            i <= ids@.len(),
            out@ == among(ids@.take(i as int), known@.complement()),
        decreases ids@.len() - i,
    {
        proof {
            assert(ids@.take(i + 1).drop_last() =~= ids@.take(i as int));
        }
        if !known.contains(&ids[i]) {
            out.push(ids[i]);
        }
        i += 1;
    }
    proof {
        assert(ids@.take(i as int) =~= ids@);
    }
    out
}

/// The ids that a selection takes of a collection, without repeats.
pub fn apply_selection(ids: Vec<u64>, selection: &TrackSelection) -> (r: Vec<u64>)
    ensures
        r@ == selected(ids@, *selection),
{
    match selection {
        TrackSelection::All => deduplicate(&ids),
        TrackSelection::Positions(range) => {
            let mut out: Vec<u64> = Vec::new();
            let mut i: usize = 0;
            proof {
                assert(ids@.take(0) =~= seq![]);
            }
            while i < ids.len()
                invariant
                    i <= ids@.len(),
                    out@ == at_positions(ids@.take(i as int), *range),
                decreases ids@.len() - i,
            {
                let position: usize = i + 1;
                proof {
                    assert(ids@.take(i + 1).drop_last() =~= ids@.take(i as int));
                }
                if range.contains(&position) {
                    out.push(ids[i]);
                }
                i += 1;
            }
            proof {
                assert(ids@.take(i as int) =~= ids@);
            }
            deduplicate(&out)
        },
        TrackSelection::TrackIds(wanted) => deduplicate(&keep_among(&ids, wanted)),
    }
}

proof fn lemma_among(ids: Seq<u64>, wanted: Set<u64>)
    ensures
        forall|x: u64| #[trigger] among(ids, wanted).contains(x) <==> ids.contains(x) && wanted.contains(x),
        among(ids, wanted).len() <= ids.len(),
        ids.no_duplicates() ==> among(ids, wanted).no_duplicates(),
    decreases ids.len(),
{
    if ids.len() > 0 {
        let t = ids.drop_last();
        lemma_among(t, wanted);
        let before = among(t, wanted);
        let r = among(ids, wanted);
        assert forall|x: u64| #[trigger] r.contains(x) <==> ids.contains(x) && wanted.contains(x) by {
            assert(before.contains(x) <==> t.contains(x) && wanted.contains(x));
            if t.contains(x) {
                let k = choose|k: int| 0 <= k < t.len() && t[k] == x;
                assert(ids[k] == x);
            }
            if ids.contains(x) && x != ids.last() {
                let k = choose|k: int| 0 <= k < ids.len() && ids[k] == x;
                assert(t[k] == x);
            }
            if before.contains(x) {
                let k = choose|k: int| 0 <= k < before.len() && before[k] == x;
                assert(r[k] == x);
            }
            if r.contains(x) {
                let k = choose|k: int| 0 <= k < r.len() && r[k] == x;
                if k < before.len() {
                    assert(before[k] == x);
                }
            }
            assert(ids[ids.len() - 1] == ids.last());
            if wanted.contains(ids.last()) {
                assert(r[before.len() as int] == ids.last());
            }
        }
        if ids.no_duplicates() {
            assert forall|i: int, j: int| 0 <= i < t.len() && 0 <= j < t.len() && i != j implies t[i] != t[j] by {
                assert(ids[i] != ids[j]);
            }
            assert(!before.contains(ids.last())) by {
                if t.contains(ids.last()) {
                    let k = choose|k: int| 0 <= k < t.len() && t[k] == ids.last();
                    assert(ids[k] != ids[ids.len() - 1]);
                }
            }
            assert forall|i: int, j: int| 0 <= i < r.len() && 0 <= j < r.len() && i != j implies r[i] != r[j] by {
                if i < before.len() {
                    assert(before.contains(before[i]));
                }
                if j < before.len() {
                    assert(before.contains(before[j]));
                }
            }
        }
    }
}

/// What is split by a set of known ids is split completely: every id is either
/// known or missing, and none is both.
pub proof fn lemma_split_is_complete(ids: Seq<u64>, known: Set<u64>, x: u64)
    ensures
        ids.contains(x) <==> among(ids, known).contains(x) || among(ids, known.complement()).contains(x),
        !(among(ids, known).contains(x) && among(ids, known.complement()).contains(x)),
{
    lemma_among(ids, known);
    lemma_among(ids, known.complement());
    assert(among(ids, known).contains(x) <==> ids.contains(x) && known.contains(x));
    assert(among(ids, known.complement()).contains(x) <==> ids.contains(x) && known.complement().contains(x));
}

proof fn lemma_at_positions(ids: Seq<u64>, range: RangeInclusive<usize>)
    ensures
        forall|x: u64| #[trigger] at_positions(ids, range).contains(x) ==> ids.contains(x),
    decreases ids.len(),
{
    if ids.len() > 0 {
        let t = ids.drop_last();
        lemma_at_positions(t, range);
        let before = at_positions(t, range);
        let r = at_positions(ids, range);
        assert forall|x: u64| #[trigger] r.contains(x) implies ids.contains(x) by {
            let k = choose|k: int| 0 <= k < r.len() && r[k] == x;
            if k < before.len() {
                assert(before[k] == x);
                assert(before.contains(x));
                let m = choose|m: int| 0 <= m < t.len() && t[m] == x;
                assert(ids[m] == x);
            } else {
                assert(ids[ids.len() - 1] == x);
            }
        }
    }
}

/// A selection takes only what the source has, and nothing twice.
pub proof fn lemma_selected(ids: Seq<u64>, selection: TrackSelection)
    ensures
        selected(ids, selection).no_duplicates(),
        forall|x: u64| #[trigger] selected(ids, selection).contains(x) ==> ids.contains(x),
        selection is All ==> forall|x: u64| #[trigger] selected(ids, selection).contains(x) <==> ids.contains(x),
{
    let taken = match selection {
        TrackSelection::All => ids,
        TrackSelection::Positions(range) => at_positions(ids, range),
        TrackSelection::TrackIds(wanted) => among(ids, wanted@),
    };
    lemma_fresh(Set::empty(), taken);
    match selection {
        TrackSelection::All => {},
        TrackSelection::Positions(range) => {
            lemma_at_positions(ids, range);
        },
        TrackSelection::TrackIds(wanted) => {
            lemma_among(ids, wanted@);
        },
    }
    assert forall|x: u64| #[trigger] selected(ids, selection).contains(x) implies ids.contains(x) by {
        assert(fresh(Set::empty(), taken).contains(x));
        assert(taken.contains(x));
    }
}

// Dates.

/// The days from the start of 1970 to the start of a year.
pub open spec fn days_before_year(year: int) -> int {
    365 * (year - 1970) + (year - 1) / 4 - (year - 1) / 100 + (year - 1) / 400 - 477
}

pub open spec fn is_leap_year(year: int) -> bool {
    year % 4 == 0 && (year % 100 != 0 || year % 400 == 0)
}

/// A year has 366 days if it is a leap year and 365 if it is not, and the days
/// are counted from 1970.
pub proof fn lemma_days_before_year(year: int)
    ensures
        days_before_year(year + 1) - days_before_year(year) == if is_leap_year(year) { 366int } else { 365 },
        days_before_year(1970) == 0,
{
    lemma_quarter(year - 1);
    lemma_hundredth(year - 1);
    lemma_four_hundredth(year - 1);
    lemma_centuries(year);
}

/// The calendar year in which a day falls, counted from the start of 1970.
pub open spec fn year_of_day(day: int) -> int {
    choose|year: int| #[trigger] days_before_year(year) <= day && day < days_before_year(year + 1)
}

proof fn lemma_years_ascend(earlier: int, later: int)
    requires
        earlier <= later,
    ensures
        days_before_year(earlier) <= days_before_year(later),
    decreases later - earlier,
{
    if earlier < later {
        lemma_years_ascend(earlier, later - 1);
        lemma_days_before_year(later - 1);
    }
}

/// A day falls into one year only.
pub proof fn lemma_year_of_day(day: int, year: int)
    requires
        days_before_year(year) <= day < days_before_year(year + 1),
    ensures
        year_of_day(day) == year,
{
    let other = year_of_day(day);
    assert(days_before_year(other) <= day < days_before_year(other + 1));
    if other < year {
        lemma_years_ascend(other + 1, year);
    }
    if year < other {
        lemma_years_ascend(year + 1, other);
    }
}

/// The days from the start of March of the year 0 to that of another year.
spec fn days_before_march(year: int) -> int {
    365 * year + year / 4 - year / 100 + year / 400
}

proof fn lemma_year_of_era(day: int, year: int)
    requires
        0 <= day < 146_097,
        year == (day - day / 1_460 + day / 36_524 - day / 146_096) / 365,
    ensures
        0 <= year < 400,
        365 * year + year / 4 - year / 100 <= day,
        day < 365 * (year + 1) + (year + 1) / 4 - (year + 1) / 100 || year == 399,
{
}

proof fn lemma_civil_year(days: int, era: int, day: int, year_of_era: int, day_of_year: int)
    requires
        days + 719_468 == era * 146_097 + day,
        0 <= day < 146_097,
        year_of_era == (day - day / 1_460 + day / 36_524 - day / 146_096) / 365,
        day_of_year == day - (365 * year_of_era + year_of_era / 4 - year_of_era / 100),
    ensures
        0 <= day_of_year < 366,
        ({
            let year = year_of_era + era * 400 + if day_of_year >= 306 { 1int } else { 0 };
            days_before_year(year) <= days < days_before_year(year + 1)
        }),
{
    lemma_year_of_era(day, year_of_era);
    let march = year_of_era + era * 400;
    lemma_march(era, year_of_era);
    lemma_january(march - 1);
    lemma_january(march);
    lemma_january(march + 1);
    lemma_march_year(march - 1);
    lemma_march_year(march);
    if year_of_era == 399 {
        lemma_march(era + 1, 0);
        assert(march + 1 == (era + 1) * 400);
    } else {
        lemma_march(era, year_of_era + 1);
    }
}

proof fn lemma_march(era: int, year: int)
    requires
        0 <= year < 400,
    ensures
        days_before_march(year + era * 400) == era * 146_097 + 365 * year + year / 4 - year / 100,
{
    assert((year + era * 400) / 4 == year / 4 + 100 * era);
    assert((year + era * 400) / 100 == year / 100 + 4 * era);
    assert((year + era * 400) / 400 == era);
}

proof fn lemma_january(year: int)
    ensures
        days_before_year(year + 1) + 719_468 == days_before_march(year) + 306,
{
}

proof fn lemma_quarter(year: int)
    ensures
        (year + 1) / 4 == year / 4 + if (year + 1) % 4 == 0 { 1int } else { 0 },
{
}

proof fn lemma_hundredth(year: int)
    ensures
        (year + 1) / 100 == year / 100 + if (year + 1) % 100 == 0 { 1int } else { 0 },
{
}

proof fn lemma_four_hundredth(year: int)
    ensures
        (year + 1) / 400 == year / 400 + if (year + 1) % 400 == 0 { 1int } else { 0 },
{
}

proof fn lemma_centuries(year: int)
    ensures
        year % 100 == 0 ==> year % 4 == 0,
        year % 400 == 0 ==> year % 100 == 0,
{
}

proof fn lemma_march_year(year: int)
    ensures
        365 <= days_before_march(year + 1) - days_before_march(year) <= 366,
{
    lemma_quarter(year);
    lemma_hundredth(year);
    lemma_four_hundredth(year);
    lemma_centuries(year + 1);
}

/// The calendar year in which a moment falls, given in milliseconds since 1970.
pub fn year_from_unix_millis(millis: i64) -> (r: Option<i32>)
    ensures
        r is Some,
        r->0 == year_of_day((millis as int) / 86_400_000),
        days_before_year(r->0 as int) <= (millis as int) / 86_400_000 < days_before_year(r->0 + 1),
{
    let shift: i128 = 200_000_000_000;
    let moved: u128 = (millis as i128 + shift * 86_400_000) as u128;
    let days: i64 = (moved / 86_400_000) as i64 - 200_000_000_000;
    assert(days == (millis as int) / 86_400_000);
    let eras: u64 = 800_000;
    let from_march: u64 = (days + 719_468 + 800_000 * 146_097) as u64;
    let era: i64 = (from_march / 146_097) as i64 - 800_000;
    let day_of_era: i64 = (from_march % 146_097) as i64;
    let d: u64 = day_of_era as u64;
    let y: u64 = (d - d / 1_460 + d / 36_524 - d / 146_096) / 365;
    let year_of_era: i64 = y as i64;
    proof {
        lemma_year_of_era(d as int, y as int);
    }
    let day_of_year: u64 = d - (365 * y + y / 4 - y / 100);
    proof {
        lemma_civil_year(days as int, era as int, d as int, y as int, day_of_year as int);
    }
    let month_prime: u64 = (5 * day_of_year + 2) / 153;
    let year: i64 = year_of_era + era * 400 + if month_prime >= 10 { 1i64 } else { 0 };
    assert(month_prime >= 10 <==> day_of_year >= 306);
    proof {
        lemma_year_of_day(days as int, year as int);
    }
    Some(year as i32)
}

// What the answers say of a track.

#[derive(Clone, Debug)]
pub struct TrackMetadata {
    pub id: u64,
    pub title: String,
    pub artists: String,
    pub album_id: Option<u64>,
    pub album: String,
    pub duration_ms: u64,
    pub cover_url: String,
    pub track_number: Option<u32>,
    pub disc_number: Option<u32>,
    pub total_tracks: Option<u32>,
    pub album_artist: String,
    pub year: Option<i32>,
}

#[verifier::ext_equal]
pub struct MetadataInfo {
    pub id: u64,
    pub title: Seq<char>,
    pub artists: Seq<char>,
    pub album_id: Option<u64>,
    pub album: Seq<char>,
    pub duration_ms: u64,
    pub cover_url: Seq<char>,
    pub track_number: Option<u32>,
    pub disc_number: Option<u32>,
    pub total_tracks: Option<u32>,
    pub album_artist: Seq<char>,
    pub year: Option<i32>,
}

impl View for TrackMetadata {
    type V = MetadataInfo;

    open spec fn view(&self) -> MetadataInfo {
        MetadataInfo {
            id: self.id,
            title: self.title@,
            artists: self.artists@,
            album_id: self.album_id,
            album: self.album@,
            duration_ms: self.duration_ms,
            cover_url: self.cover_url@,
            track_number: self.track_number,
            disc_number: self.disc_number,
            total_tracks: self.total_tracks,
            album_artist: self.album_artist@,
            year: self.year,
        }
    }
}

/// The texts under `name` of the items that have one.
pub open spec fn named(items: Seq<Json>) -> Seq<Seq<char>>
    decreases items.len(),
{
    if items.len() == 0 {
        seq![]
    } else {
        let before = named(items.drop_last());
        match items.last().get_of("name"@) {
            Some(name) => match name.text_of() {
                Some(text) => before.push(text),
                None => before,
            },
            None => before,
        }
    }
}

fn join_named(items: &Vec<Json>) -> (r: String)
    ensures
        r@ == joined(named(items@), " / "@),
{
    let mut names: Vec<String> = Vec::new();
    let mut i: usize = 0;
    proof {
        assert(texts(names@) =~= seq![]);
    }
    while i < items.len()
        invariant
            i <= items@.len(),
            texts(names@) == named(items@.take(i as int)),
        decreases items@.len() - i,
    {
        proof {
            assert(items@.take(i + 1).drop_last() =~= items@.take(i as int));
            assert(items@.take(i + 1).last() == items@[i as int]);
        }
        if let Some(name) = items[i].get("name") {
            if let Some(text) = name.as_str() {
                let ghost held = names@;
                names.push(text.to_owned());
                proof {
                    assert(texts(names@) =~= texts(held).push(text@));
                }
            }
        }
        i += 1;
    }
    proof {
        assert(items@.take(i as int) =~= items@);
    }
    join(&names, " / ")
}

/// The length of the run of digits at the start of a text.
pub open spec fn leading_digits(s: Seq<char>) -> int
    decreases s.len(),
{
    if s.len() > 0 && is_digit(s[0]) {
        1 + leading_digits(s.drop_first())
    } else {
        0
    }
}

fn to_u32(n: u64) -> (r: Option<u32>)
    ensures
        r == if n <= u32::MAX { Some(n as u32) } else { None },
{
    if n <= u32::MAX as u64 {
        Some(n as u32)
    } else {
        None
    }
}

/// A disc number: a number, or a text that starts with one.
pub open spec fn disc_number_of(value: Json) -> Option<u32> {
    match value {
        Json::Unsigned(n) => if n <= u32::MAX {
            Some(n as u32)
        } else {
            None
        },
        Json::Text(text) => {
            let t = trim_of(text@);
            match parse_unsigned_of(t.take(leading_digits(t)), u32::MAX as nat) {
                Some(n) => Some(n as u32),
                None => None,
            }
        },
        _ => None,
    }
}

proof fn lemma_leading_digits(s: Seq<char>)
    ensures
        0 <= leading_digits(s) <= s.len(),
    decreases s.len(),
{
    if s.len() > 0 && is_digit(s[0]) {
        lemma_leading_digits(s.drop_first());
    }
}

pub fn parse_disc_number(value: &Json) -> (r: Option<u32>)
    ensures
        r == disc_number_of(*value),
{
    match value {
        Json::Unsigned(n) => to_u32(*n),
        Json::Text(text) => {
            let chars = chars_of(text.as_str());
            let t = trim(chars.as_slice());
            let mut i: usize = 0;
            proof {
                assert(t@.skip(0) =~= t@);
            }
            while i < t.len() && '0' <= t[i] && t[i] <= '9'
                invariant
                    i <= t@.len(),
                    leading_digits(t@) == i + leading_digits(t@.skip(i as int)),
                decreases t@.len() - i,
            {
                proof {
                    assert(t@.skip(i as int).drop_first() =~= t@.skip(i + 1));
                }
                i += 1;
            }
            proof {
                if i < t@.len() {
                    assert(t@.skip(i as int)[0] == t@[i as int]);
                }
            }
            match parse_unsigned(take_chars(t, i), u32::MAX as u64) {
                Some(n) => Some(n as u32),
                None => None,
            }
        },
        _ => None,
    }
}

pub open spec fn u64_at_of(value: Json, key: Seq<char>) -> Option<u64> {
    match value.get_of(key) {
        Some(v) => v.u64_of(),
        None => None,
    }
}

pub open spec fn u32_at_of(value: Json, key: Seq<char>) -> Option<u32> {
    match u64_at_of(value, key) {
        Some(n) => if n <= u32::MAX {
            Some(n as u32)
        } else {
            None
        },
        None => None,
    }
}

fn u64_at(value: &Json, key: &str) -> (r: Option<u64>)
    ensures
        r == u64_at_of(*value, key@),
{
    match value.get(key) {
        Some(v) => v.as_u64(),
        None => None,
    }
}

fn u32_at(value: &Json, key: &str) -> (r: Option<u32>)
    ensures
        r == u32_at_of(*value, key@),
{
    match u64_at(value, key) {
        Some(n) => to_u32(n),
        None => None,
    }
}

/// The names of the artists of a track.
pub open spec fn track_artists(value: Json) -> Seq<char> {
    joined(named(crate::discovery::either_items(value, "ar"@, "artists"@)), " / "@)
}

/// What an answer says of a track.
pub open spec fn metadata_of(value: Json) -> Option<MetadataInfo> {
    let album = either_of(value, "al"@, "album"@);
    match u64_at_of(value, "id"@) {
        Some(id) => Some(
            MetadataInfo {
                id,
                title: string_at_of(value, "name"@),
                artists: track_artists(value),
                album_id: match album {
                    Some(item) => u64_at_of(item, "id"@),
                    None => None,
                },
                album: match album {
                    Some(item) => string_at_of(item, "name"@),
                    None => Seq::empty(),
                },
                duration_ms: match either_of(value, "dt"@, "duration"@) {
                    Some(length) => match length.u64_of() {
                        Some(n) => n,
                        None => 0,
                    },
                    None => 0,
                },
                cover_url: match album {
                    Some(item) => string_at_of(item, "picUrl"@),
                    None => Seq::empty(),
                },
                track_number: u32_at_of(value, "no"@),
                disc_number: match value.get_of("cd"@) {
                    Some(disc) => disc_number_of(disc),
                    None => None,
                },
                total_tracks: match album {
                    Some(item) => u32_at_of(item, "size"@),
                    None => None,
                },
                album_artist: match album {
                    Some(item) => {
                        let names = joined(named(items_at_of(item, "artists"@)), " / "@);
                        if names.len() > 0 {
                            names
                        } else {
                            track_artists(value)
                        }
                    },
                    None => track_artists(value),
                },
                year: match value.get_of("publishTime"@) {
                    Some(time) => match time.i64_of() {
                        Some(millis) => Some(year_of_day((millis as int) / 86_400_000) as i32),
                        None => None,
                    },
                    None => None,
                },
            },
        ),
        None => None,
    }
}

impl TrackMetadata {
    pub fn parse(value: &Json) -> (r: Option<TrackMetadata>)
        ensures
            match r {
                Some(track) => metadata_of(*value) == Some(track@),
                None => metadata_of(*value) is None,
            },
    {
        let id: u64 = match u64_at(value, "id") {
            Some(id) => id,
            None => {
                return None;
            },
        };
        let artists: String = match either(value, "ar", "artists") {
            Some(list) => match list.as_array() {
                Some(items) => join_named(items),
                None => String::new(),
            },
            None => String::new(),
        };
        proof {
            assert(joined(named(Seq::<Json>::empty()), " / "@) =~= seq![]);
            assert(artists@ == track_artists(*value));
        }
        let year: Option<i32> = match value.get("publishTime") {
            Some(time) => match time.as_i64() {
                Some(millis) => year_from_unix_millis(millis),
                None => None,
            },
            None => None,
        };
        let duration_ms: u64 = match either(value, "dt", "duration") {
            Some(length) => match length.as_u64() {
                Some(n) => n,
                None => 0,
            },
            None => 0,
        };
        let disc_number: Option<u32> = match value.get("cd") {
            Some(disc) => parse_disc_number(disc),
            None => None,
        };
        let title = string_at(value, "name");
        let track_number: Option<u32> = u32_at(value, "no");
        match either(value, "al", "album") {
            Some(item) => {
                let mut album_artist: String = match array_at(item, "artists") {
                    Some(items) => join_named(items),
                    None => String::new(),
                };
                proof {
                    assert(album_artist@ == joined(named(items_at_of(*item, "artists"@)), " / "@));
                }
                if album_artist.as_str().is_empty() {
                    album_artist = artists.clone();
                }
                Some(
                    TrackMetadata {
                        id,
                        title,
                        artists,
                        album_id: u64_at(item, "id"),
                        album: string_at(item, "name"),
                        duration_ms,
                        cover_url: string_at(item, "picUrl"),
                        track_number,
                        disc_number,
                        total_tracks: u32_at(item, "size"),
                        album_artist,
                        year,
                    },
                )
            },
            None => {
                let album_artist: String = artists.clone();
                Some(
                    TrackMetadata {
                        id,
                        title,
                        artists,
                        album_id: None,
                        album: String::new(),
                        duration_ms,
                        cover_url: String::new(),
                        track_number,
                        disc_number,
                        total_tracks: None,
                        album_artist,
                        year,
                    },
                )
            },
        }
    }
}

#[derive(Clone, Debug)]
pub struct AudioFile {
    pub id: u64,
    pub url: String,
    pub format: String,
    pub bitrate: u64,
    pub md5: String,
    pub quality: AudioQuality,
}

#[verifier::ext_equal]
pub struct AudioInfoView {
    pub id: u64,
    pub url: Seq<char>,
    pub format: Seq<char>,
    pub bitrate: u64,
    pub md5: Seq<char>,
    pub quality: AudioQuality,
}

impl View for AudioFile {
    type V = AudioInfoView;

    open spec fn view(&self) -> AudioInfoView {
        AudioInfoView {
            id: self.id,
            url: self.url@,
            format: self.format@,
            bitrate: self.bitrate,
            md5: self.md5@,
            quality: self.quality,
        }
    }
}

pub open spec fn audio_of(value: Json, requested: AudioQuality) -> Option<AudioInfoView> {
    match u64_at_of(value, "id"@) {
        Some(id) => Some(
            AudioInfoView {
                id,
                url: string_at_of(value, "url"@),
                format: string_at_of(value, "type"@),
                bitrate: match u64_at_of(value, "br"@) {
                    Some(n) => n,
                    None => 0,
                },
                md5: string_at_of(value, "md5"@),
                quality: match value.get_of("level"@) {
                    Some(level) => match level.text_of() {
                        Some(text) => match quality_of(text) {
                            Some(quality) => quality,
                            None => requested,
                        },
                        None => requested,
                    },
                    None => requested,
                },
            },
        ),
        None => None,
    }
}

impl AudioFile {
    pub fn parse(value: &Json, requested: AudioQuality) -> (r: Option<AudioFile>)
        ensures
            match r {
                Some(audio) => audio_of(*value, requested) == Some(audio@),
                None => audio_of(*value, requested) is None,
            },
    {
        match u64_at(value, "id") {
            Some(id) => Some(
                AudioFile {
                    id,
                    url: string_at(value, "url"),
                    format: string_at(value, "type"),
                    bitrate: match u64_at(value, "br") {
                        Some(n) => n,
                        None => 0,
                    },
                    md5: string_at(value, "md5"),
                    quality: match value.get("level") {
                        Some(level) => match level.as_str() {
                            Some(text) => match AudioQuality::from_api_level(text) {
                                Some(quality) => quality,
                                None => requested,
                            },
                            None => requested,
                        },
                        None => requested,
                    },
                },
            ),
            None => None,
        }
    }
}

// Lyrics that are stored with a track.

/// Whether a line is a note of the service and not a line of the lyrics.
pub open spec fn is_note(line: Seq<char>) -> bool {
    let t = trim_of(line);
    t.len() > 0 && t[0] == '{' && t.last() == '}'
}

pub open spec fn without_notes(lines: Seq<Seq<char>>) -> Seq<Seq<char>>
    decreases lines.len(),
{
    if lines.len() == 0 {
        lines
    } else if is_note(lines.last()) {
        without_notes(lines.drop_last())
    } else {
        without_notes(lines.drop_last()).push(lines.last())
    }
}

/// Lyrics without the notes of the service.
pub open spec fn cleaned(s: Seq<char>) -> Seq<char> {
    trim_of(joined(without_notes(lines_of(s)), "\n"@))
}

pub fn clean_lyrics(value: &str) -> (r: String)
    ensures
        r@ == cleaned(value@),
{
    let chars = chars_of(value);
    let rows = lines(chars.as_slice());
    let mut kept: Vec<String> = Vec::new();
    let mut i: usize = 0;
    proof {
        assert(texts(kept@) =~= slices(rows@).take(0));
    }
    while i < rows.len()
        invariant
            i <= rows@.len(),
            texts(kept@) == without_notes(slices(rows@).take(i as int)),
        decreases rows@.len() - i,
    {
        proof {
            assert(slices(rows@).take(i + 1).drop_last() =~= slices(rows@).take(i as int));
            assert(slices(rows@).take(i + 1).last() == rows@[i as int]@);
        }
        let t = trim(rows[i]);
        let note: bool = t.len() > 0 && t[0] == '{' && t[t.len() - 1] == '}';
        if !note {
            let ghost held = kept@;
            kept.push(string_of(rows[i]));
            proof {
                assert(texts(kept@) =~= texts(held).push(rows@[i as int]@));
            }
        }
        i += 1;
    }
    proof {
        assert(slices(rows@).take(i as int) =~= slices(rows@));
    }
    crate::text::trimmed(join(&kept, "\n").as_str())
}

/// The lyrics in an answer, unless nothing is left of them.
pub open spec fn stored_lyrics_of(value: Json) -> Option<Seq<char>> {
    match value.get_of("lrc"@) {
        Some(lrc) => match lrc.get_of("lyric"@) {
            Some(lyric) => match lyric.text_of() {
                Some(text) => if cleaned(text).len() > 0 {
                    Some(cleaned(text))
                } else {
                    None
                },
                None => None,
            },
            None => None,
        },
        None => None,
    }
}

pub fn lyrics_at(value: &Json) -> (r: Option<String>)
    ensures
        text_option(r) == stored_lyrics_of(*value),
{
    match value.get("lrc") {
        Some(lrc) => match lrc.get("lyric") {
            Some(lyric) => match lyric.as_str() {
                Some(text) => {
                    let cleaned = clean_lyrics(text);
                    if cleaned.as_str().is_empty() {
                        None
                    } else {
                        Some(cleaned)
                    }
                },
                None => None,
            },
            None => None,
        },
        None => None,
    }
}

// The source of a download.

/// A playlist or an album whose tracks are downloaded.
#[derive(Clone, Debug)]
pub struct Collection {
    pub kind: String,
    pub id: u64,
    pub name: String,
}

/// The tracks of a source.
#[derive(Clone, Debug)]
pub struct Discovered {
    pub track_ids: Vec<u64>,
    pub collection: Option<Collection>,
}

/// An answer of the service lacks what it should hold.
#[derive(Clone, Copy, Debug)]
pub struct MissingPart(pub &'static str);

impl MissingPart {
    /// The error in words.
    pub fn message(&self) -> (r: String)
        ensures
            r@ == "NCM response is missing "@ + self.0@,
    {
        let mut out: String = "NCM response is missing ".to_owned();
        out.append(self.0);
        out
    }
}

/// The ids of the items of a list that have one that is a number.
pub open spec fn plain_ids(items: Seq<Json>) -> Seq<u64>
    decreases items.len(),
{
    if items.len() == 0 {
        seq![]
    } else {
        let before = plain_ids(items.drop_last());
        match u64_at_of(items.last(), "id"@) {
            Some(id) => before.push(id),
            None => before,
        }
    }
}

fn ids_at(value: &Json, key: &str) -> (r: Vec<u64>)
    ensures
        r@ == plain_ids(items_at_of(*value, key@)),
{
    let mut out: Vec<u64> = Vec::new();
    if let Some(items) = array_at(value, key) {
        let mut i: usize = 0;
        proof {
            assert(items@.take(0) =~= seq![]);
        }
        while i < items.len()
            invariant
                i <= items@.len(),
                out@ == plain_ids(items@.take(i as int)),
            decreases items@.len() - i,
        {
            proof {
                assert(items@.take(i + 1).drop_last() =~= items@.take(i as int));
                assert(items@.take(i + 1).last() == items@[i as int]);
            }
            if let Some(id) = u64_at(&items[i], "id") {
                out.push(id);
            }
            i += 1;
        }
        proof {
            assert(items@.take(i as int) =~= items@);
        }
    }
    out
}

impl Discovered {
    /// Single tracks, each once.
    pub fn tracks(ids: &Vec<u64>) -> (r: Discovered)
        ensures
            r.track_ids@ == deduplicated(ids@),
            r.collection is None,
    {
        Discovered { track_ids: deduplicate(ids), collection: None }
    }

    /// The tracks of a playlist, from the answer that describes it.
    pub fn playlist(id: u64, response: &Json) -> (r: Result<Discovered, MissingPart>)
        ensures
            match (r, response.get_of("playlist"@)) {
                (Ok(found), Some(playlist)) => found.track_ids@ == plain_ids(items_at_of(playlist, "trackIds"@))
                    && found.collection is Some && found.collection->0.kind@ == "playlist"@ && found.collection->0.id
                    == id && found.collection->0.name@ == string_at_of(playlist, "name"@),
                (Err(part), None) => part.0@ == "playlist"@,
                _ => false,
            },
    {
        match response.get("playlist") {
            Some(playlist) => Ok(
                Discovered {
                    track_ids: ids_at(playlist, "trackIds"),
                    collection: Some(
                        Collection { kind: "playlist".to_owned(), id, name: string_at(playlist, "name") },
                    ),
                },
            ),
            None => Err(MissingPart("playlist")),
        }
    }

    /// The tracks of an album, from the answer that describes it.
    pub fn album(id: u64, response: &Json) -> (r: Result<Discovered, MissingPart>)
        ensures
            match (r, response.get_of("album"@)) {
                (Ok(found), Some(album)) => found.track_ids@ == plain_ids(items_at_of(*response, "songs"@))
                    && found.collection is Some && found.collection->0.kind@ == "album"@ && found.collection->0.id
                    == id && found.collection->0.name@ == string_at_of(album, "name"@),
                (Err(part), None) => part.0@ == "album"@,
                _ => false,
            },
    {
        match response.get("album") {
            Some(album) => Ok(
                Discovered {
                    track_ids: ids_at(response, "songs"),
                    collection: Some(Collection { kind: "album".to_owned(), id, name: string_at(album, "name") }),
                },
            ),
            None => Err(MissingPart("album")),
        }
    }
}

// The plan of a download.

/// The position, counted from one, at which an id last occurs.
pub open spec fn last_position(ids: Seq<u64>, id: u64) -> Option<u32>
    decreases ids.len(),
{
    if ids.len() == 0 {
        None
    } else if ids.last() == id {
        Some(ids.len() as u32)
    } else {
        last_position(ids.drop_last(), id)
    }
}

fn position_of(ids: &Vec<u64>, id: u64) -> (r: Option<u32>)
    ensures
        r == last_position(ids@, id),
{
    let mut n: usize = ids.len();
    proof {
        assert(ids@.take(n as int) =~= ids@);
    }
    while n > 0
        invariant
            n <= ids@.len(),
            last_position(ids@, id) == last_position(ids@.take(n as int), id),
        decreases n,
    {
        proof {
            assert(ids@.take(n as int).drop_last() =~= ids@.take(n - 1));
        }
        if ids[n - 1] == id {
            return Some(#[verifier::truncate] (n as u32));
        }
        n -= 1;
    }
    None
}

/// The ids that have a position in a source, with it.
pub open spec fn positioned(ids: Seq<u64>, source: Seq<u64>) -> Seq<(u64, u32)>
    decreases ids.len(),
{
    if ids.len() == 0 {
        seq![]
    } else {
        let before = positioned(ids.drop_last(), source);
        match last_position(source, ids.last()) {
            Some(position) => before.push((ids.last(), position)),
            None => before,
        }
    }
}

/// What has to be downloaded of a selection and what need not be.
#[derive(Debug)]
pub struct DownloadPlan {
    pub requested: usize,
    /// What has to be downloaded, in order.
    pub pending: Vec<u64>,
    /// The position of each of those in the source.
    pub positions: Vec<u32>,
    /// What is there already, in order.
    pub skipped_existing: Vec<u64>,
    /// What is there already, with its position in the source.
    pub memberships: Vec<(u64, u32)>,
}

impl DownloadPlan {
    /// Splits what was selected of a source by what the library has.
    pub fn new(source: &Vec<u64>, selected: &Vec<u64>, existing: &HashSet<u64>) -> (r: DownloadPlan)
        ensures
            r.requested == selected@.len(),
            r.pending@ == among(selected@, existing@.complement()),
            r.skipped_existing@ == among(selected@, existing@),
            r.memberships@ == positioned(r.skipped_existing@, source@),
            r.positions@.len() == r.pending@.len(),
            forall|i: int|
                0 <= i < r.pending@.len() ==> #[trigger] r.positions@[i] == match last_position(source@, r.pending@[i]) {
                    Some(position) => position,
                    None => (i + 1) as u32,
                },
    {
        let pending = keep_missing(selected, existing);
        let skipped_existing = keep_among(selected, existing);
        let mut positions: Vec<u32> = Vec::new();
        let mut i: usize = 0;
        while i < pending.len()
            invariant
                i <= pending@.len(),
                positions@.len() == i,
                forall|k: int|
                    0 <= k < i ==> #[trigger] positions@[k] == match last_position(source@, pending@[k]) {
                        Some(position) => position,
                        None => (k + 1) as u32,
                    },
            decreases pending@.len() - i,
        {
            let position: u32 = match position_of(source, pending[i]) {
                Some(position) => position,
                None => #[verifier::truncate] ((i + 1) as u32),
            };
            positions.push(position);
            i += 1;
        }
        let mut memberships: Vec<(u64, u32)> = Vec::new();
        let mut j: usize = 0;
        proof {
            assert(skipped_existing@.take(0) =~= seq![]);
        }
        while j < skipped_existing.len()
            invariant
                j <= skipped_existing@.len(),
                memberships@ == positioned(skipped_existing@.take(j as int), source@),
            decreases skipped_existing@.len() - j,
        {
            proof {
                assert(skipped_existing@.take(j + 1).drop_last() =~= skipped_existing@.take(j as int));
            }
            if let Some(position) = position_of(source, skipped_existing[j]) {
                memberships.push((skipped_existing[j], position));
            }
            j += 1;
        }
        proof {
            assert(skipped_existing@.take(j as int) =~= skipped_existing@);
        }
        DownloadPlan { requested: selected.len(), pending, positions, skipped_existing, memberships }
    }
}

/// Where the file of a track goes, and under which extension.
#[derive(Clone, Debug)]
pub struct TrackTarget {
    pub extension: String,
    pub path: String,
}

pub open spec fn layout_of(metadata: MetadataInfo, extension: Seq<char>) -> LayoutInfo {
    LayoutInfo {
        id: metadata.id,
        title: metadata.title,
        artists: metadata.artists,
        album: metadata.album,
        album_artist: metadata.album_artist,
        track_number: metadata.track_number,
        disc_number: metadata.disc_number,
        total_tracks: metadata.total_tracks,
        format: extension,
    }
}

/// Where a track goes; nothing where its metadata or its audio is not to be had.
pub fn track_target(root: &str, metadata: Option<&TrackMetadata>, audio: Option<&AudioFile>) -> (r: Option<
    TrackTarget,
>)
    ensures
        match r {
            Some(target) => metadata is Some && audio is Some && audio->0.url@.len() > 0 && target.extension@
                == safe_extension_of(audio->0.format@) && target.path@ == destination_of(
                root@,
                layout_of(metadata->0@, target.extension@),
            ),
            None => metadata is None || audio is None || audio->0.url@.len() == 0,
        },
{
    match (metadata, audio) {
        (Some(metadata), Some(audio)) => {
            if audio.url.as_str().is_empty() {
                return None;
            }
            let extension: String = safe_extension(audio.format.as_str()).to_owned();
            let track = OrganizableTrack {
                id: metadata.id,
                title: metadata.title.clone(),
                artists: metadata.artists.clone(),
                album: metadata.album.clone(),
                album_artist: metadata.album_artist.clone(),
                track_number: metadata.track_number,
                disc_number: metadata.disc_number,
                total_tracks: metadata.total_tracks,
                format: extension.clone(),
                path: String::new(),
            };
            proof {
                assert(track@ == layout_of(metadata@, extension@));
            }
            Some(TrackTarget { path: destination(root, &track), extension })
        },
        _ => None,
    }
}

/// What the library records of a track that was downloaded.
pub fn downloaded_track(
    metadata: &TrackMetadata,
    audio: &AudioFile,
    target: &TrackTarget,
    bytes: u64,
    collection: Option<&Collection>,
    position: u32,
) -> (r: DownloadedTrack)
    ensures
        r.ncm_id == metadata.id,
        r.title@ == metadata.title@,
        r.artists@ == metadata.artists@,
        r.album_id == metadata.album_id,
        r.album@ == metadata.album@,
        r.duration_ms == metadata.duration_ms,
        r.album_artist@ == metadata.album_artist@,
        r.year == metadata.year,
        r.track_number == metadata.track_number,
        r.disc_number == metadata.disc_number,
        r.total_tracks == metadata.total_tracks,
        r.cover_url@ == metadata.cover_url@,
        r.file_path@ == target.path@,
        r.file_size == bytes,
        r.format@ == target.extension@,
        r.bitrate == audio.bitrate,
        r.audio_md5@ == audio.md5@,
        r.collection_position == position,
        match collection {
            Some(value) => r.collection_id == Some(value.id) && r.collection_kind@ == value.kind@ && r.collection_name@
                == value.name@,
            None => r.collection_id is None && r.collection_kind@.len() == 0 && r.collection_name@.len() == 0,
        },
{
    let (collection_id, collection_kind, collection_name) = match collection {
        Some(value) => (Some(value.id), value.kind.clone(), value.name.clone()),
        None => (None, String::new(), String::new()),
    };
    DownloadedTrack {
        ncm_id: metadata.id,
        title: metadata.title.clone(),
        artists: metadata.artists.clone(),
        album_id: metadata.album_id,
        album: metadata.album.clone(),
        duration_ms: metadata.duration_ms,
        album_artist: metadata.album_artist.clone(),
        year: metadata.year,
        track_number: metadata.track_number,
        disc_number: metadata.disc_number,
        total_tracks: metadata.total_tracks,
        cover_url: metadata.cover_url.clone(),
        file_path: target.path.clone(),
        file_size: bytes,
        format: target.extension.clone(),
        bitrate: audio.bitrate,
        audio_md5: audio.md5.clone(),
        collection_id,
        collection_kind,
        collection_name,
        collection_position: position,
    }
}

/// What the report says of a track that was downloaded.
pub fn downloaded_file(
    metadata: &TrackMetadata,
    audio: &AudioFile,
    target: &TrackTarget,
    bytes: u64,
    requested_quality: AudioQuality,
) -> (r: DownloadedFile)
    ensures
        r.track_id == metadata.id,
        r.title@ == metadata.title@,
        r.path@ == target.path@,
        r.bytes == bytes,
        r.requested_quality == requested_quality,
        r.actual_quality == audio.quality,
        r.format@ == target.extension@,
{
    DownloadedFile {
        track_id: metadata.id,
        title: metadata.title.clone(),
        path: target.path.clone(),
        bytes,
        requested_quality,
        actual_quality: audio.quality,
        format: target.extension.clone(),
    }
}

pub open spec fn warning_of(track_id: u64, stage: DownloadWarningStage, message: Option<String>) -> Seq<
    DownloadWarning,
> {
    match message {
        Some(message) => seq![DownloadWarning { track_id, stage, message }],
        None => seq![],
    }
}

/// The warnings of a track, in the order of its stages.
pub fn collect_warnings(
    track_id: u64,
    lyrics: Option<String>,
    cover: Option<String>,
    tagging: Option<String>,
    sidecar: Option<String>,
) -> (r: Vec<DownloadWarning>)
    ensures
        r@ == warning_of(track_id, DownloadWarningStage::Lyrics, lyrics) + warning_of(
            track_id,
            DownloadWarningStage::Cover,
            cover,
        ) + warning_of(track_id, DownloadWarningStage::Tagging, tagging) + warning_of(
            track_id,
            DownloadWarningStage::Sidecar,
            sidecar,
        ),
{
    let mut out: Vec<DownloadWarning> = Vec::new();
    if let Some(message) = lyrics {
        out.push(DownloadWarning { track_id, stage: DownloadWarningStage::Lyrics, message });
    }
    if let Some(message) = cover {
        out.push(DownloadWarning { track_id, stage: DownloadWarningStage::Cover, message });
    }
    if let Some(message) = tagging {
        out.push(DownloadWarning { track_id, stage: DownloadWarningStage::Tagging, message });
    }
    if let Some(message) = sidecar {
        out.push(DownloadWarning { track_id, stage: DownloadWarningStage::Sidecar, message });
    }
    proof {
        assert(out@ =~= warning_of(track_id, DownloadWarningStage::Lyrics, lyrics) + warning_of(
            track_id,
            DownloadWarningStage::Cover,
            cover,
        ) + warning_of(track_id, DownloadWarningStage::Tagging, tagging) + warning_of(
            track_id,
            DownloadWarningStage::Sidecar,
            sidecar,
        ));
    }
    out
}

/// What is said when neither service gave lyrics. `first_error` is what went
/// wrong with the first, if anything did.
pub open spec fn lyrics_warning_of(first_error: Option<Seq<char>>, second_error: Seq<char>) -> Seq<char> {
    (match first_error {
        Some(error) => "new lyrics endpoint failed: "@ + error,
        None => "new lyrics endpoint returned no lyrics"@,
    }) + "; fallback failed: "@ + second_error
}

/// What is said when neither service gave lyrics.
pub fn lyrics_warning(first_error: Option<&str>, second_error: &str) -> (r: String)
    ensures
        r@ == lyrics_warning_of(
            match first_error {
                Some(error) => Some(error@),
                None => None,
            },
            second_error@,
        ),
{
    let mut out: String = match first_error {
        Some(error) => "new lyrics endpoint failed: ".to_owned().concat(error),
        None => "new lyrics endpoint returned no lyrics".to_owned(),
    };
    out.append("; fallback failed: ");
    out.append(second_error);
    out
}

/// Asking for the lyrics of a track, at one service and then at the other.
#[derive(Clone, Debug, PartialEq, Eq)]
pub enum LyricsFetch {
    /// Ask the new service.
    AskNew,
    /// Ask the old service. The new one failed with an error, or had no lyrics.
    AskOld { first_error: Option<String> },
    /// There is nothing more to ask.
    Done { lyrics: Option<String>, warning: Option<String> },
}

impl LyricsFetch {
    pub fn new() -> (r: LyricsFetch)
        ensures
            r is AskNew,
    {
        LyricsFetch::AskNew
    }

    /// Goes on with what a service answered, or the error with which it failed.
    pub fn accept(self, answer: Result<&Json, &str>) -> (r: LyricsFetch)
        ensures
            match (self, answer) {
                (LyricsFetch::AskNew, Ok(value)) => if stored_lyrics_of(*value) is Some {
                    r is Done && text_option(r->lyrics) == stored_lyrics_of(*value) && r->warning is None
                } else {
                    r is AskOld && r->first_error is None
                },
                (LyricsFetch::AskNew, Err(error)) => r is AskOld && text_option(r->first_error) == Some(error@),
                (LyricsFetch::AskOld { first_error }, Ok(value)) => r is Done && text_option(r->lyrics)
                    == stored_lyrics_of(*value) && r->warning is None,
                (LyricsFetch::AskOld { first_error }, Err(error)) => r is Done && r->lyrics is None && text_option(
                    r->warning,
                ) == Some(lyrics_warning_of(text_option(first_error), error@)),
                (LyricsFetch::Done { .. }, _) => r == self,
            },
    {
        match (self, answer) {
            (LyricsFetch::AskNew, Ok(value)) => match lyrics_at(value) {
                Some(text) => LyricsFetch::Done { lyrics: Some(text), warning: None },
                None => LyricsFetch::AskOld { first_error: None },
            },
            (LyricsFetch::AskNew, Err(error)) => LyricsFetch::AskOld { first_error: Some(error.to_owned()) },
            (LyricsFetch::AskOld { .. }, Ok(value)) => LyricsFetch::Done { lyrics: lyrics_at(value), warning: None },
            (LyricsFetch::AskOld { first_error }, Err(error)) => {
                let warning = match first_error {
                    Some(first) => lyrics_warning(Some(first.as_str()), error),
                    None => lyrics_warning(None, error),
                };
                LyricsFetch::Done { lyrics: None, warning: Some(warning) }
            },
            (LyricsFetch::Done { lyrics, warning }, _) => LyricsFetch::Done { lyrics, warning },
        }
    }
}

/// The address of a cover in the size in which it is stored; nothing where
/// there is no cover.
pub fn cover_download_url(url: &str) -> (r: Option<String>)
    ensures
        match r {
            Some(address) => url@.len() > 0 && address@ == url@ + (if url@.contains('?') {
                "&"@
            } else {
                "?"@
            }) + "param=1000y1000"@,
            None => url@.len() == 0,
        },
{
    if url.is_empty() {
        return None;
    }
    let chars = chars_of(url);
    proof {
        crate::text::lemma_first_of(url@, '?');
    }
    let mut out: String = url.to_owned();
    match find_char(chars.as_slice(), '?') {
        Some(_) => {
            out.append("&");
        },
        None => {
            out.append("?");
        },
    }
    out.append("param=1000y1000");
    Some(out)
}

/// The kinds of tags that are written.
#[derive(Clone, Copy, Debug, PartialEq, Eq, Structural)]
pub enum TagKind {
    Id3v2,
    VorbisComments,
    Mp4Ilst,
}

/// The kind of tags that a file with an extension holds.
pub fn tag_kind(extension: &str) -> (r: Result<TagKind, String>)
    ensures
        match r {
            Ok(kind) => kind == TagKind::Id3v2 && extension@ == "mp3"@ || kind == TagKind::VorbisComments && (
            extension@ == "flac"@ || extension@ == "ogg"@) || kind == TagKind::Mp4Ilst && extension@ == "m4a"@,
            Err(message) => extension@ != "mp3"@ && extension@ != "flac"@ && extension@ != "ogg"@ && extension@
                != "m4a"@ && message@ == "unsupported tag format: "@ + extension@,
        },
{
    if same_text(extension, "mp3") {
        Ok(TagKind::Id3v2)
    } else if same_text(extension, "flac") || same_text(extension, "ogg") {
        Ok(TagKind::VorbisComments)
    } else if same_text(extension, "m4a") {
        Ok(TagKind::Mp4Ilst)
    } else {
        Err("unsupported tag format: ".to_owned().concat(extension))
    }
}

/// The text of the file that holds the lyrics beside a track.
pub fn sidecar_text(lyrics: &str) -> (r: String)
    ensures
        r@ == lyrics@.push('\n'),
{
    let mut out: String = lyrics.to_owned();
    out.push('\n');
    out
}

// The report.

/// What came of a track: nothing where it could not be had.
pub type TrackResult = Option<(DownloadedFile, Vec<DownloadWarning>)>;

pub open spec fn files_of(results: Seq<TrackResult>) -> Seq<DownloadedFile>
    decreases results.len(),
{
    if results.len() == 0 {
        seq![]
    } else {
        match results.last() {
            Some((file, _)) => files_of(results.drop_last()).push(file),
            None => files_of(results.drop_last()),
        }
    }
}

pub open spec fn warnings_of(results: Seq<TrackResult>) -> Seq<DownloadWarning>
    decreases results.len(),
{
    if results.len() == 0 {
        seq![]
    } else {
        match results.last() {
            Some((_, warnings)) => warnings_of(results.drop_last()) + warnings@,
            None => warnings_of(results.drop_last()),
        }
    }
}

pub open spec fn file_key() -> spec_fn(DownloadedFile) -> int {
    |file: DownloadedFile| file.track_id as int
}

pub open spec fn warning_key() -> spec_fn(DownloadWarning) -> int {
    |warning: DownloadWarning| warning.track_id as int
}

pub open spec fn file_ids(files: Seq<DownloadedFile>) -> Set<u64> {
    files.map_values(|file: DownloadedFile| file.track_id).to_set()
}

fn sort_files(input: Vec<DownloadedFile>) -> (r: Vec<DownloadedFile>)
    ensures
        r@ == sorted_by(input@, file_key()),
{
    let mut out: Vec<DownloadedFile> = Vec::new();
    proof {
        assert(out@ =~= input@.take(0));
    }
    for item in it: input
        invariant
            it.seq() == input@,
            out@ == sorted_by(input@.take(it.index() as int), file_key()),
    {
        let mut p: usize = out.len();
        while p > 0 && out[p - 1].track_id > item.track_id
            invariant
                p <= out@.len(),
                forall|i: int| p <= i < out@.len() ==> file_key()(#[trigger] out@[i]) > file_key()(item),
            decreases p,
        {
            p -= 1;
        }
        proof {
            lemma_insert_position(out@, item, file_key(), p as int);
            let i = it.index() as int;
            assert(input@.take(i + 1).drop_last() =~= input@.take(i));
            assert(input@.take(i + 1).last() == item);
        }
        out.insert(p, item);
    }
    proof {
        assert(input@.take(input@.len() as int) =~= input@);
    }
    out
}

fn sort_warnings(input: Vec<DownloadWarning>) -> (r: Vec<DownloadWarning>)
    ensures
        r@ == sorted_by(input@, warning_key()),
{
    let mut out: Vec<DownloadWarning> = Vec::new();
    proof {
        assert(out@ =~= input@.take(0));
    }
    for item in it: input
        invariant
            it.seq() == input@,
            out@ == sorted_by(input@.take(it.index() as int), warning_key()),
    {
        let mut p: usize = out.len();
        while p > 0 && out[p - 1].track_id > item.track_id
            invariant
                p <= out@.len(),
                forall|i: int| p <= i < out@.len() ==> warning_key()(#[trigger] out@[i]) > warning_key()(item),
            decreases p,
        {
            p -= 1;
        }
        proof {
            lemma_insert_position(out@, item, warning_key(), p as int);
            let i = it.index() as int;
            assert(input@.take(i + 1).drop_last() =~= input@.take(i));
            assert(input@.take(i + 1).last() == item);
        }
        out.insert(p, item);
    }
    proof {
        assert(input@.take(input@.len() as int) =~= input@);
    }
    out
}

/// The report of a download, from what came of its tracks in whatever order
/// they were done.
pub fn report(plan: DownloadPlan, results: Vec<TrackResult>) -> (r: DownloadReport)
    ensures
        r.requested == plan.requested,
        r.skipped_existing@ == plan.skipped_existing@,
        r.downloaded@ == sorted_by(files_of(results@), file_key()),
        r.warnings@ == sorted_by(warnings_of(results@), warning_key()),
        r.unavailable@ == among(plan.pending@, file_ids(files_of(results@)).complement()),
{
    let mut files: Vec<DownloadedFile> = Vec::new();
    let mut warnings: Vec<DownloadWarning> = Vec::new();
    let mut done: HashSet<u64> = HashSet::new();
    proof {
        assert(files@ =~= files_of(results@.take(0)));
        assert(warnings@ =~= warnings_of(results@.take(0)));
        assert(file_ids(files@) =~= Set::<u64>::empty());
    }
    for result in it: results
        invariant
            it.seq() == results@,
            files@ == files_of(results@.take(it.index() as int)),
            warnings@ == warnings_of(results@.take(it.index() as int)),
            done@ == file_ids(files@),
    {
        proof {
            let i = it.index() as int;
            assert(results@.take(i + 1).drop_last() =~= results@.take(i));
            assert(results@.take(i + 1).last() == result);
        }
        if let Some((file, extra)) = result {
            let mut extra = extra;
            let ghost held = files@;
            let ghost id = file.track_id;
            done.insert(file.track_id);
            files.push(file);
            warnings.append(&mut extra);
            proof {
                let f = |file: DownloadedFile| file.track_id;
                assert(files@.map_values(f) =~= held.map_values(f).push(id));
                held.map_values(f).lemma_push_to_set_commute(id);
                assert(file_ids(files@) =~= file_ids(held).insert(id));
            }
        }
    }
    proof {
        assert(results@.take(results@.len() as int) =~= results@);
    }
    let unavailable = keep_missing(&plan.pending, &done);
    DownloadReport {
        requested: plan.requested,
        downloaded: sort_files(files),
        skipped_existing: plan.skipped_existing,
        unavailable,
        warnings: sort_warnings(warnings),
    }
}

/// A report lists the files in the order of their ids, neither losing nor
/// adding one, and what is unavailable was not downloaded.
pub proof fn lemma_report(pending: Seq<u64>, results: Seq<TrackResult>)
    ensures
        is_sorted_by(sorted_by(files_of(results), file_key()), file_key()),
        sorted_by(files_of(results), file_key()).to_multiset() == files_of(results).to_multiset(),
        forall|id: u64|
            #[trigger] among(pending, file_ids(files_of(results)).complement()).contains(id) <==> pending.contains(id)
                && !file_ids(files_of(results)).contains(id),
{
    lemma_sorted_by(files_of(results), file_key());
    lemma_among(pending, file_ids(files_of(results)).complement());
}

// Where the audio of the tracks is.

/// How many tracks are asked for with one request.
pub const REQUEST_CHUNK: usize = 500;

/// The next chunk of a list of ids.
pub open spec fn chunk_of(ids: Seq<u64>, next: int) -> Seq<u64> {
    if next + REQUEST_CHUNK <= ids.len() {
        ids.subrange(next, next + REQUEST_CHUNK)
    } else {
        ids.skip(next)
    }
}

pub open spec fn behind_chunk(ids: Seq<u64>, next: int) -> int {
    if next + REQUEST_CHUNK <= ids.len() {
        next + REQUEST_CHUNK
    } else {
        ids.len() as int
    }
}

/// The next chunk of a list of ids, and where the one after it starts.
pub fn next_chunk(ids: &Vec<u64>, next: usize) -> (r: (Vec<u64>, usize))
    requires
        next < ids@.len(),
    ensures
        r.0@ == chunk_of(ids@, next as int),
        r.1 == behind_chunk(ids@, next as int),
        r.0@.len() > 0,
        next < r.1 <= ids@.len(),
{
    let count: usize = ids.len();
    let end: usize = if count - next >= REQUEST_CHUNK {
        next + REQUEST_CHUNK
    } else {
        count
    };
    let mut out: Vec<u64> = Vec::new();
    let mut i: usize = next;
    while i < end
        invariant
            next <= i <= end <= ids@.len(),
            out@ == ids@.subrange(next as int, i as int),
        decreases end - i,
    {
        out.push(ids[i]);
        proof {
            assert(ids@.subrange(next as int, i + 1) =~= ids@.subrange(next as int, i as int).push(ids@[i as int]));
        }
        i += 1;
    }
    proof {
        assert(ids@.subrange(next as int, ids@.len() as int) =~= ids@.skip(next as int));
    }
    (out, end)
}

/// Asks for the audio of tracks, in lower and lower qualities for those that
/// cannot be had in a higher one.
pub struct AudioResolver {
    ids: Vec<u64>,
    chain: Vec<AudioQuality>,
    level: usize,
    pending: Vec<u64>,
    next: usize,
    unresolved: HashSet<u64>,
    found: HashMap<u64, AudioFile>,
}

#[verifier::ext_equal]
pub struct ResolverView {
    pub ids: Seq<u64>,
    pub chain: Seq<AudioQuality>,
    /// Which quality is asked for.
    pub level: int,
    /// The tracks that are asked for in this quality.
    pub pending: Seq<u64>,
    /// Where among those the next request starts.
    pub next: int,
    pub unresolved: Set<u64>,
    pub found: Map<u64, AudioInfoView>,
}

pub open spec fn audio_views(found: Map<u64, AudioFile>) -> Map<u64, AudioInfoView> {
    found.map_values(|audio: AudioFile| audio@)
}

impl View for AudioResolver {
    type V = ResolverView;

    closed spec fn view(&self) -> ResolverView {
        ResolverView {
            ids: self.ids@,
            chain: self.chain@,
            level: self.level as int,
            pending: self.pending@,
            next: self.next as int,
            unresolved: self.unresolved@,
            found: audio_views(self.found@),
        }
    }
}

impl ResolverView {
    pub open spec fn is_done(self) -> bool {
        self.level >= self.chain.len()
    }

    pub open spec fn wf(self) -> bool {
        &&& forall|id: u64| #[trigger] self.unresolved.contains(id) ==> self.ids.contains(id)
        &&& forall|id: u64| #[trigger] self.found.contains_key(id) ==> !self.unresolved.contains(id) && self.found[id].id
            == id && self.found[id].url.len() > 0
        &&& !self.is_done() ==> 0 <= self.next < self.pending.len()
        &&& 0 <= self.level
    }

    pub open spec fn start(ids: Seq<u64>, quality: AudioQuality) -> ResolverView {
        ResolverView {
            ids,
            chain: chain_of(quality),
            level: if ids.len() > 0 { 0 } else { chain_of(quality).len() as int },
            pending: ids,
            next: 0,
            unresolved: ids.to_set(),
            found: Map::empty(),
        }
    }

    /// What is known after one more item of an answer: it is taken if it says
    /// where the audio of a track is that is not resolved yet.
    pub open spec fn with_item(self, item: Json) -> ResolverView {
        match audio_of(item, self.chain[self.level]) {
            Some(audio) => if audio.url.len() > 0 && self.unresolved.contains(audio.id) {
                ResolverView {
                    unresolved: self.unresolved.remove(audio.id),
                    found: self.found.insert(audio.id, audio),
                    ..self
                }
            } else {
                self
            },
            None => self,
        }
    }

    pub open spec fn with_items(self, items: Seq<Json>) -> ResolverView
        decreases items.len(),
    {
        if items.len() == 0 {
            self
        } else {
            self.with_items(items.drop_last()).with_item(items.last())
        }
    }

    /// Goes on behind a request: to the next chunk, or to the next quality for
    /// what is not resolved, or to the end where everything is.
    pub open spec fn advanced(self) -> ResolverView {
        let after = behind_chunk(self.pending, self.next);
        if after < self.pending.len() {
            ResolverView { next: after, ..self }
        } else if self.level + 1 < self.chain.len() && among(self.ids, self.unresolved).len() > 0 {
            ResolverView { level: self.level + 1, pending: among(self.ids, self.unresolved), next: 0, ..self }
        } else {
            ResolverView { level: self.chain.len() as int, ..self }
        }
    }

    /// The state after an answer.
    pub open spec fn next_state(self, response: Json) -> ResolverView {
        self.with_items(items_at_of(response, "data"@)).advanced()
    }
}

proof fn lemma_with_items(v: ResolverView, items: Seq<Json>)
    requires
        v.wf(),
    ensures
        v.with_items(items).wf(),
        v.with_items(items).ids == v.ids,
        v.with_items(items).chain == v.chain,
        v.with_items(items).level == v.level,
        v.with_items(items).pending == v.pending,
        v.with_items(items).next == v.next,
        v.with_items(items).unresolved.subset_of(v.unresolved),
        forall|id: u64| #[trigger] v.found.contains_key(id) ==> v.with_items(items).found.contains_key(id) && v.with_items(
            items,
        ).found[id] == v.found[id],
    decreases items.len(),
{
    if items.len() > 0 {
        lemma_with_items(v, items.drop_last());
    }
}

impl AudioResolver {
    pub closed spec fn inv(self) -> bool {
        self@.wf()
    }

    pub fn new(ids: &Vec<u64>, quality: AudioQuality) -> (r: AudioResolver)
        ensures
            r.inv(),
            r@ == ResolverView::start(ids@, quality),
    {
        let chain = quality.fallback_chain();
        let mut listed: Vec<u64> = Vec::new();
        let mut unresolved: HashSet<u64> = HashSet::new();
        append_unique(&mut listed, &mut unresolved, crate::catalog::copy_ids(ids));
        let level: usize = if ids.len() > 0 {
            0
        } else {
            chain.len()
        };
        let r = AudioResolver {
            ids: crate::catalog::copy_ids(ids),
            chain,
            level,
            pending: crate::catalog::copy_ids(ids),
            next: 0,
            unresolved,
            found: HashMap::new(),
        };
        proof {
            assert(Set::<u64>::empty().union(ids@.to_set()) =~= ids@.to_set());
            assert(audio_views(r.found@) =~= Map::empty());
            assert(r@ =~= ResolverView::start(ids@, quality));
        }
        r
    }

    /// The tracks and the quality that have to be asked for next.
    pub fn request(&self) -> (r: Option<(Vec<u64>, AudioQuality)>)
        requires
            self.inv(),
        ensures
            match r {
                Some((ids, quality)) => !self@.is_done() && ids@ == chunk_of(self@.pending, self@.next) && quality
                    == self@.chain[self@.level],
                None => self@.is_done(),
            },
    {
        if self.level >= self.chain.len() {
            return None;
        }
        let (ids, _) = next_chunk(&self.pending, self.next);
        Some((ids, self.chain[self.level]))
    }

    /// Takes the answer to what was asked for last.
    pub fn accept(&mut self, response: &Json)
        requires
            old(self).inv(),
            !old(self)@.is_done(),
        ensures
            final(self).inv(),
            final(self)@ == old(self)@.next_state(*response),
    {
        let ghost v = self@;
        let quality: AudioQuality = self.chain[self.level];
        if let Some(items) = array_at(response, "data") {
            let mut i: usize = 0;
            proof {
                assert(items@.take(0) =~= seq![]);
            }
            while i < items.len()
                invariant
                    i <= items@.len(),
                    v.wf(),
                    !v.is_done(),
                    self@ == v.with_items(items@.take(i as int)),
                    self@.level == v.level,
                    self@.chain == v.chain,
                    quality == v.chain[v.level],
                decreases items@.len() - i,
            {
                let ghost now = self@;
                proof {
                    assert(items@.take(i + 1).drop_last() =~= items@.take(i as int));
                    assert(items@.take(i + 1).last() == items@[i as int]);
                    lemma_with_items(v, items@.take(i as int));
                }
                if let Some(audio) = AudioFile::parse(&items[i], quality) {
                    if !audio.url.as_str().is_empty() && self.unresolved.contains(&audio.id) {
                        let id: u64 = audio.id;
                        let ghost put = audio@;
                        let ghost before = self.found@;
                        self.unresolved.remove(&id);
                        self.found.insert(id, audio);
                        proof {
                            assert(audio_views(self.found@) =~= audio_views(before).insert(id, put));
                            assert(self@ =~= now.with_item(items@[i as int]));
                        }
                    }
                }
                proof {
                    assert(self@ =~= now.with_item(items@[i as int]));
                }
                i += 1;
            }
            proof {
                assert(items@.take(i as int) =~= items@);
            }
        } else {
            proof {
                assert(v.with_items(Seq::empty()) == v);
            }
        }
        let ghost w = self@;
        proof {
            lemma_with_items(v, items_at_of(*response, "data"@));
            assert(w == v.with_items(items_at_of(*response, "data"@)));
        }
        let (_, after) = next_chunk(&self.pending, self.next);
        if after < self.pending.len() {
            self.next = after;
        } else {
            let rest = keep_among(&self.ids, &self.unresolved);
            if self.level < self.chain.len() - 1 && rest.len() > 0 {
                self.level = self.level + 1;
                self.pending = rest;
                self.next = 0;
            } else {
                self.level = self.chain.len();
            }
        }
        proof {
            assert(self@ =~= w.advanced());
        }
    }

    /// Where the audio of the tracks is.
    pub fn finish(self) -> (r: HashMap<u64, AudioFile>)
        ensures
            audio_views(r@) == self@.found,
    {
        self.found
    }
}

/// An answer never loses what was found, in the quality in which it was found,
/// and brings the search nearer to its end: to a later chunk, or to a lower quality.
pub proof fn lemma_resolver_progress(v: ResolverView, response: Json)
    requires
        v.wf(),
        !v.is_done(),
    ensures
        v.next_state(response).wf(),
        forall|id: u64| #[trigger] v.found.contains_key(id) ==> v.next_state(response).found.contains_key(id)
            && v.next_state(response).found[id] == v.found[id],
        v.next_state(response).level > v.level || v.next_state(response).next > v.next,
{
    lemma_with_items(v, items_at_of(response, "data"@));
}

// Metadata of tracks that are known by their ids.

pub open spec fn metadata_map(tracks: Map<u64, TrackMetadata>) -> Map<u64, MetadataInfo> {
    tracks.map_values(|track: TrackMetadata| track@)
}

/// The metadata by id after more of it came; what comes later takes the place
/// of what came earlier.
pub open spec fn with_metadata(tracks: Map<u64, MetadataInfo>, items: Seq<Json>) -> Map<u64, MetadataInfo>
    decreases items.len(),
{
    if items.len() == 0 {
        tracks
    } else {
        let before = with_metadata(tracks, items.drop_last());
        match metadata_of(items.last()) {
            Some(track) => before.insert(track.id, track),
            None => before,
        }
    }
}

/// Asks for the metadata of tracks, so many at a time.
pub struct MetadataLookup {
    ids: Vec<u64>,
    next: usize,
    tracks: HashMap<u64, TrackMetadata>,
}

#[verifier::ext_equal]
pub struct MetadataLookupView {
    pub ids: Seq<u64>,
    /// Where among the ids the next request starts.
    pub next: int,
    pub tracks: Map<u64, MetadataInfo>,
}

impl View for MetadataLookup {
    type V = MetadataLookupView;

    closed spec fn view(&self) -> MetadataLookupView {
        MetadataLookupView { ids: self.ids@, next: self.next as int, tracks: metadata_map(self.tracks@) }
    }
}

impl MetadataLookup {
    pub fn new(ids: &Vec<u64>) -> (r: MetadataLookup)
        ensures
            r@ == (MetadataLookupView { ids: ids@, next: 0, tracks: Map::empty() }),
    {
        let r = MetadataLookup { ids: crate::catalog::copy_ids(ids), next: 0, tracks: HashMap::new() };
        proof {
            assert(r@.tracks =~= Map::empty());
        }
        r
    }

    /// The tracks that have to be asked for next.
    pub fn request(&self) -> (r: Option<Vec<u64>>)
        ensures
            match r {
                Some(ids) => self@.next < self@.ids.len() && ids@ == chunk_of(self@.ids, self@.next),
                None => self@.next >= self@.ids.len(),
            },
    {
        if self.next < self.ids.len() {
            let (ids, _) = next_chunk(&self.ids, self.next);
            Some(ids)
        } else {
            None
        }
    }

    /// Takes the answer to what was asked for last.
    pub fn accept(&mut self, response: &Json)
        requires
            old(self)@.next < old(self)@.ids.len(),
        ensures
            final(self)@.ids == old(self)@.ids,
            final(self)@.next == behind_chunk(old(self)@.ids, old(self)@.next),
            final(self)@.tracks == with_metadata(old(self)@.tracks, items_at_of(*response, "songs"@)),
    {
        let ghost start = metadata_map(self.tracks@);
        let ghost ids = self.ids@;
        let (_, after) = next_chunk(&self.ids, self.next);
        if let Some(items) = array_at(response, "songs") {
            let mut i: usize = 0;
            proof {
                assert(items@.take(0) =~= seq![]);
            }
            while i < items.len()
                invariant
                    i <= items@.len(),
                    self.ids@ == ids,
                    metadata_map(self.tracks@) == with_metadata(start, items@.take(i as int)),
                decreases items@.len() - i,
            {
                let ghost earlier = metadata_map(self.tracks@);
                let ghost head = items@.take(i + 1);
                proof {
                    assert(head.drop_last() =~= items@.take(i as int));
                    assert(head.last() == items@[i as int]);
                }
                if let Some(track) = TrackMetadata::parse(&items[i]) {
                    let ghost put = track@;
                    self.tracks.insert(track.id, track);
                    proof {
                        assert(metadata_map(self.tracks@) =~= earlier.insert(put.id, put));
                    }
                }
                i += 1;
            }
            proof {
                assert(items@.take(i as int) =~= items@);
            }
        }
        self.next = after;
    }

    /// The metadata by id.
    pub fn finish(self) -> (r: HashMap<u64, TrackMetadata>)
        ensures
            metadata_map(r@) == self@.tracks,
    {
        self.tracks
    }
}

// Laws of selections and layouts.

/// Those among a list that are wanted are in it, and those that are not, are not.
pub proof fn lemma_among_contains(ids: Seq<u64>, wanted: Set<u64>, id: u64)
    ensures
        among(ids, wanted).contains(id) <==> ids.contains(id) && wanted.contains(id),
{
    lemma_among(ids, wanted);
}

/// What is wanted keeps the order of the list, as often as it occurs there.
pub proof fn lemma_among_keeps_order(ids: Seq<u64>, wanted: Set<u64>)
    ensures
        among(ids, wanted) == ids.filter(|id: u64| wanted.contains(id)),
    decreases ids.len(),
{
    reveal(Seq::filter);
    if ids.len() > 0 {
        lemma_among_keeps_order(ids.drop_last(), wanted);
    }
}

/// A range of positions takes exactly the ids at those positions, counted from
/// one, as far as there are any.
pub proof fn lemma_positions_selected(ids: Seq<u64>, range: RangeInclusive<usize>)
    requires
        !range@.exhausted,
        1 <= range@.start <= range@.end,
    ensures
        at_positions(ids, range) == if range@.start > ids.len() {
            seq![]
        } else if range@.end >= ids.len() {
            ids.skip(range@.start - 1)
        } else {
            ids.subrange(range@.start - 1, range@.end as int)
        },
    decreases ids.len(),
{
    if ids.len() > 0 {
        lemma_positions_selected(ids.drop_last(), range);
        let n = ids.len() as int;
        let start = range@.start as int;
        let end = range@.end as int;
        let before = at_positions(ids.drop_last(), range);
        if start > n {
            assert(at_positions(ids, range) =~= seq![]);
        } else if start == n {
            assert(before =~= seq![]);
            assert(at_positions(ids, range) =~= ids.skip(start - 1));
        } else if end >= n {
            assert(ids.drop_last().skip(start - 1).push(ids.last()) =~= ids.skip(start - 1));
            if end == n - 1 {
                assert(false);
            }
            assert(at_positions(ids, range) =~= ids.skip(start - 1));
        } else {
            if end >= n - 1 {
                assert(ids.drop_last().skip(start - 1) =~= ids.subrange(start - 1, end));
            } else {
                assert(ids.drop_last().subrange(start - 1, end) =~= ids.subrange(start - 1, end));
            }
        }
    }
}

/// A list in which nothing repeats is taken as it is, whole or by its positions;
/// by ids, exactly what is wanted of it is taken.
pub proof fn lemma_selection_takes(ids: Seq<u64>, wanted: HashSet<u64>, range: RangeInclusive<usize>, id: u64)
    ensures
        ids.no_duplicates() ==> selected(ids, TrackSelection::All) == ids,
        selected(ids, TrackSelection::All).contains(id) <==> ids.contains(id),
        selected(ids, TrackSelection::TrackIds(wanted)).contains(id) <==> ids.contains(id) && wanted@.contains(id),
        selected(ids, TrackSelection::Positions(range)).contains(id) <==> at_positions(ids, range).contains(id),
{
    if ids.no_duplicates() {
        crate::discovery::lemma_fresh_of_new(Set::empty(), ids);
    }
    lemma_fresh(Set::empty(), ids);
    lemma_among(ids, wanted@);
    lemma_fresh(Set::empty(), among(ids, wanted@));
    lemma_fresh(Set::empty(), at_positions(ids, range));
}

/// The qualities that are tried for each one that is wanted: first it, then
/// every lower one, down to the lowest.
pub proof fn lemma_chains(quality: AudioQuality)
    ensures
        chain_of(quality) == match quality {
            AudioQuality::Standard => seq![AudioQuality::Standard],
            AudioQuality::Higher => seq![AudioQuality::Higher, AudioQuality::Standard],
            AudioQuality::ExHigh => seq![AudioQuality::ExHigh, AudioQuality::Higher, AudioQuality::Standard],
            AudioQuality::Lossless => seq![
                AudioQuality::Lossless,
                AudioQuality::ExHigh,
                AudioQuality::Higher,
                AudioQuality::Standard,
            ],
            _ => (if quality == AudioQuality::HiRes {
                seq![]
            } else {
                seq![quality]
            }) + seq![
                AudioQuality::HiRes,
                AudioQuality::Lossless,
                AudioQuality::ExHigh,
                AudioQuality::Higher,
                AudioQuality::Standard,
            ],
        },
{
    reveal_with_fuel(chain_of, 7);
    assert(chain_of(AudioQuality::Higher) =~= seq![AudioQuality::Higher, AudioQuality::Standard]);
    assert(chain_of(AudioQuality::ExHigh) =~= seq![AudioQuality::ExHigh, AudioQuality::Higher, AudioQuality::Standard]);
    assert(chain_of(AudioQuality::Lossless) =~= seq![
        AudioQuality::Lossless,
        AudioQuality::ExHigh,
        AudioQuality::Higher,
        AudioQuality::Standard,
    ]);
    assert(chain_of(AudioQuality::HiRes) =~= seq![
        AudioQuality::HiRes,
        AudioQuality::Lossless,
        AudioQuality::ExHigh,
        AudioQuality::Higher,
        AudioQuality::Standard,
    ]);
    if quality_rank(quality) == 5 {
        assert(chain_of(quality) =~= seq![quality] + chain_of(AudioQuality::HiRes));
    } else if quality == AudioQuality::HiRes {
        assert(seq![] + chain_of(quality) =~= chain_of(quality));
    }
}

/// The service knows each quality by its own name.
pub proof fn lemma_level_names(quality: AudioQuality)
    ensures
        quality == AudioQuality::Standard ==> level_of(quality) == "standard"@,
        quality == AudioQuality::Higher ==> level_of(quality) == "higher"@,
        quality == AudioQuality::ExHigh ==> level_of(quality) == "exhigh"@,
        quality == AudioQuality::Lossless ==> level_of(quality) == "lossless"@,
        quality == AudioQuality::HiRes ==> level_of(quality) == "hires"@,
        quality == AudioQuality::Jyeffect ==> level_of(quality) == "jyeffect"@,
        quality == AudioQuality::Sky ==> level_of(quality) == "sky"@,
        quality == AudioQuality::Dolby ==> level_of(quality) == "dolby"@,
        quality == AudioQuality::Jymaster ==> level_of(quality) == "jymaster"@,
{
}

/// A track that is downloaded is filed by its own metadata: below the root, in
/// the directory of its album artist and there in that of its album, under its
/// number, its title and its id.
pub proof fn lemma_filed_by_metadata(root: Seq<char>, metadata: MetadataInfo, extension: Seq<char>, number: u32, disc: u32)
    requires
        metadata.track_number == Some(number),
        metadata.total_tracks is None,
        trim_of(metadata.album_artist).len() > 0,
        trim_of(metadata.album).len() > 0,
    ensures
        ({
            let path = components_of(destination_of(root, layout_of(metadata, extension)));
            let name = zero_padded(decimal(number as nat), 2) + " "@ + sanitized(metadata.title) + " ["@ + decimal(
                metadata.id as nat,
            ) + "]."@ + safe_extension_of(extension);
            &&& metadata.disc_number is None || metadata.disc_number == Some(1u32) ==> path == components_of(root)
                + seq![sanitized(metadata.album_artist), sanitized(metadata.album), name]
            &&& metadata.disc_number == Some(disc) && disc > 1 ==> path == components_of(root) + seq![
                sanitized(metadata.album_artist),
                sanitized(metadata.album),
                "CD"@ + zero_padded(decimal(disc as nat), 2),
                name,
            ]
        }),
{
    let layout = layout_of(metadata, extension);
    lemma_place(root, layout);
}

/// The fields of a track's layout are those of its metadata, each its own.
pub proof fn lemma_layout_fields(metadata: MetadataInfo, extension: Seq<char>)
    ensures
        layout_of(metadata, extension).id == metadata.id,
        layout_of(metadata, extension).title == metadata.title,
        layout_of(metadata, extension).artists == metadata.artists,
        layout_of(metadata, extension).album == metadata.album,
        layout_of(metadata, extension).album_artist == metadata.album_artist,
        layout_of(metadata, extension).track_number == metadata.track_number,
        layout_of(metadata, extension).disc_number == metadata.disc_number,
        layout_of(metadata, extension).total_tracks == metadata.total_tracks,
        layout_of(metadata, extension).format == extension,
{
}

/// What an answer says of a track is read field by field: its own name, number
/// and length, the names of its artists, and the name, number, picture, size and
/// artists of its album.
pub proof fn lemma_metadata_fields(value: Json, album: Json, id: u64)
    requires
        value.get_of("id"@) == Some(Json::Unsigned(id)),
        value.get_of("al"@) == Some(album),
    ensures
        metadata_of(value) is Some,
        ({
            let read = metadata_of(value)->0;
            &&& read.id == id
            &&& read.title == string_at_of(value, "name"@)
            &&& read.album == string_at_of(album, "name"@)
            &&& read.album_id == u64_at_of(album, "id"@)
            &&& read.cover_url == string_at_of(album, "picUrl"@)
            &&& read.track_number == u32_at_of(value, "no"@)
            &&& read.total_tracks == u32_at_of(album, "size"@)
            &&& value.get_of("ar"@) is Some ==> read.artists == joined(named(items_at_of(value, "ar"@)), " / "@)
            &&& items_at_of(album, "artists"@).len() == 0 ==> read.album_artist == read.artists
            &&& joined(named(items_at_of(album, "artists"@)), " / "@).len() > 0 ==> read.album_artist == joined(
                named(items_at_of(album, "artists"@)),
                " / "@,
            )
            &&& value.get_of("dt"@) is Some && value.get_of("dt"@)->0.u64_of() is Some ==> Some(read.duration_ms)
                == value.get_of("dt"@)->0.u64_of()
            &&& value.get_of("cd"@) is None ==> read.disc_number is None
            &&& value.get_of("publishTime"@) is None ==> read.year is None
        }),
{
    if items_at_of(album, "artists"@).len() == 0 {
        assert(named(items_at_of(album, "artists"@)) =~= seq![]);
        assert(joined(seq![], " / "@).len() == 0);
    }
}

/// Where the audio of a track is, in which format and quality, is read from the
/// fields of the answer; the quality is the one asked for where none is named.
pub proof fn lemma_audio_fields(value: Json, requested: AudioQuality, level: AudioQuality, id: u64, text: String)
    requires
        value.get_of("id"@) == Some(Json::Unsigned(id)),
        text@ == level_of(level),
    ensures
        audio_of(value, requested) is Some,
        ({
            let read = audio_of(value, requested)->0;
            &&& read.id == id
            &&& read.url == string_at_of(value, "url"@)
            &&& read.format == string_at_of(value, "type"@)
            &&& read.md5 == string_at_of(value, "md5"@)
            &&& u64_at_of(value, "br"@) is Some ==> Some(read.bitrate) == u64_at_of(value, "br"@)
            &&& value.get_of("level"@) is None ==> read.quality == requested
            &&& value.get_of("level"@) == Some(Json::Text(text)) ==> read.quality == level
        }),
{
    lemma_level_round_trip(level);
}

/// A disc number that is a number is that number.
pub proof fn lemma_disc_number(n: u64)
    ensures
        n <= u32::MAX ==> disc_number_of(Json::Unsigned(n)) == Some(n as u32),
        n > u32::MAX ==> disc_number_of(Json::Unsigned(n)) is None,
{
}

/// Of lyrics, exactly the notes of the service go; the other lines stay, in order.
pub proof fn lemma_only_notes_go(lines: Seq<Seq<char>>)
    ensures
        without_notes(lines) == lines.filter(|line: Seq<char>| !is_note(line)),
    decreases lines.len(),
{
    reveal(Seq::filter);
    if lines.len() > 0 {
        lemma_only_notes_go(lines.drop_last());
    }
}

/// A line is a note when it stands in braces.
pub proof fn lemma_notes(inner: Seq<char>, line: Seq<char>)
    ensures
        is_note(seq!['{'] + inner + seq!['}']),
        trim_of(line).len() == 0 ==> !is_note(line),
        trim_of(line).len() > 0 && trim_of(line)[0] != '{' ==> !is_note(line),
{
    let s = seq!['{'] + inner + seq!['}'];
    assert(s[0] == '{' && s.last() == '}');
    assert(trim_of(s) == s);
}

/// Requests take a list in chunks that follow one another: each goes on where
/// the one before ended, none is longer than 500, and only the last is shorter.
pub proof fn lemma_chunks(ids: Seq<u64>, next: int)
    requires
        0 <= next < ids.len(),
    ensures
        next < behind_chunk(ids, next) <= ids.len(),
        chunk_of(ids, next) == ids.subrange(next, behind_chunk(ids, next)),
        0 < chunk_of(ids, next).len() <= 500,
        behind_chunk(ids, next) < ids.len() ==> chunk_of(ids, next).len() == 500,
{
    if next + REQUEST_CHUNK > ids.len() {
        assert(ids.skip(next) =~= ids.subrange(next, ids.len() as int));
    }
}

/// An item of an answer that says where the audio of a track is resolves that
/// track, unless it is resolved already, and no other.
pub proof fn lemma_item_resolves(v: ResolverView, item: Json, audio: AudioInfoView, id: u64)
    requires
        audio_of(item, v.chain[v.level]) == Some(audio),
    ensures
        audio.url.len() > 0 && v.unresolved.contains(audio.id) ==> v.with_item(item).found.contains_key(audio.id)
            && v.with_item(item).found[audio.id] == audio && !v.with_item(item).unresolved.contains(audio.id),
        audio.url.len() == 0 || !v.unresolved.contains(audio.id) ==> v.with_item(item) == v,
        id != audio.id ==> v.with_item(item).unresolved.contains(id) == v.unresolved.contains(id)
            && v.with_item(item).found.contains_key(id) == v.found.contains_key(id),
{
}

/// Behind the last chunk, what is not resolved is asked for in the next lower
/// quality, all of it and nothing else; where all is resolved or there is no
/// lower quality, it is over.
pub proof fn lemma_lower_quality_is_tried(v: ResolverView, id: u64)
    requires
        v.wf(),
        !v.is_done(),
    ensures
        v.next + 500 < v.pending.len() ==> v.advanced() == (ResolverView { next: v.next + 500, ..v }),
        v.next + 500 >= v.pending.len() && v.level + 1 < v.chain.len() && v.unresolved.contains(id)
            ==> v.advanced().level == v.level + 1 && v.advanced().next == 0 && v.advanced().pending.contains(id)
            && !v.advanced().is_done(),
        v.next + 500 >= v.pending.len() && v.advanced().level == v.level + 1 && v.level + 1 < v.chain.len() && v.advanced().pending.contains(id) ==> v.unresolved.contains(id),
        v.next + 500 >= v.pending.len() && v.level + 1 >= v.chain.len() ==> v.advanced().is_done(),
        v.advanced().found == v.found && v.advanced().unresolved == v.unresolved,
{
    lemma_among(v.ids, v.unresolved);
    if v.unresolved.contains(id) {
        assert(v.ids.contains(id));
        assert(among(v.ids, v.unresolved).contains(id));
        assert(among(v.ids, v.unresolved).len() > 0);
    }
}

/// A lookup starts with all tracks, in the quality that is wanted.
pub proof fn lemma_resolver_starts(ids: Seq<u64>, quality: AudioQuality, id: u64)
    requires
        ids.len() > 0,
    ensures
        ({
            let v = ResolverView::start(ids, quality);
            &&& !v.is_done()
            &&& v.chain[v.level] == quality
            &&& v.pending == ids && v.next == 0
            &&& v.unresolved.contains(id) <==> ids.contains(id)
            &&& v.found == Map::<u64, AudioInfoView>::empty()
        }),
{
    lemma_chain(quality);
}

/// What is known of tracks grows by what an answer says, and the latest counts.
pub proof fn lemma_metadata_known(tracks: Map<u64, MetadataInfo>, items: Seq<Json>, item: Json, track: MetadataInfo)
    requires
        metadata_of(item) == Some(track),
    ensures
        with_metadata(tracks, items.push(item)).contains_key(track.id),
        with_metadata(tracks, items.push(item))[track.id] == track,
        forall|id: u64| id != track.id ==> (#[trigger] with_metadata(tracks, items.push(item)).contains_key(id)
            <==> with_metadata(tracks, items).contains_key(id)),
{
    assert(items.push(item).drop_last() =~= items);
}

/// The position of an id is the last at which it stands, counted from one.
pub proof fn lemma_last_position(ids: Seq<u64>, id: u64)
    requires
        ids.len() <= u32::MAX,
    ensures
        match last_position(ids, id) {
            Some(position) => 1 <= position <= ids.len() && ids[position - 1] == id && forall|i: int|
                position <= i < ids.len() ==> ids[i] != id,
            None => !ids.contains(id),
        },
    decreases ids.len(),
{
    if ids.len() > 0 && ids.last() != id {
        let t = ids.drop_last();
        lemma_last_position(t, id);
        if let Some(position) = last_position(t, id) {
            assert(ids[position - 1] == t[position - 1]);
            assert forall|i: int| position <= i < ids.len() implies ids[i] != id by {
                if i < t.len() {
                    assert(t[i] == ids[i]);
                }
            }
        }
        if !ids.drop_last().contains(id) && ids.contains(id) {
            let i = choose|i: int| 0 <= i < ids.len() && ids[i] == id;
            assert(ids.drop_last()[i] == id);
        }
    }
}

/// What came of tracks is reported whole: the files and the warnings of all that
/// were downloaded, and nothing for those that were not.
pub proof fn lemma_results(results: Seq<TrackResult>, file: DownloadedFile, warnings: Vec<DownloadWarning>)
    ensures
        files_of(results.push(Some((file, warnings)))) == files_of(results).push(file),
        warnings_of(results.push(Some((file, warnings)))) == warnings_of(results) + warnings@,
        files_of(results.push(None)) == files_of(results),
        warnings_of(results.push(None)) == warnings_of(results),
        files_of(seq![]).len() == 0,
{
    assert(results.push(Some((file, warnings))).drop_last() =~= results);
    assert(results.push(None).drop_last() =~= results);
}

/// A download is planned whole: what is there already is skipped, everything
/// else is downloaded, in the order of the selection, and each goes with its
/// position in the source.
pub proof fn lemma_plan(source: Vec<u64>, selected: Vec<u64>, existing: HashSet<u64>, r: DownloadPlan, i: int)
    requires
        call_ensures(DownloadPlan::new, (&source, &selected, &existing), r),
        source@.len() <= u32::MAX,
    ensures
        r.requested == selected@.len(),
        r.pending@ == selected@.filter(|id: u64| !existing@.contains(id)),
        r.skipped_existing@ == selected@.filter(|id: u64| existing@.contains(id)),
        0 <= i < r.pending@.len() && source@.contains(r.pending@[i]) ==> 1 <= r.positions@[i] <= source@.len()
            && source@[r.positions@[i] - 1] == r.pending@[i],
        0 <= i < r.pending@.len() && !source@.contains(r.pending@[i]) ==> r.positions@[i] == (i + 1) as u32,
{
    lemma_among_keeps_order(selected@, existing@);
    lemma_among_keeps_order(selected@, existing@.complement());
    let f = |id: u64| existing@.complement().contains(id);
    let g = |id: u64| !existing@.contains(id);
    assert(f =~= g);
    if 0 <= i < r.pending@.len() {
        lemma_last_position(source@, r.pending@[i]);
    }
}

/// What is there already is noted with its position in the source.
pub proof fn lemma_positioned(ids: Seq<u64>, source: Seq<u64>, id: u64)
    requires
        source.len() <= u32::MAX,
    ensures
        source.contains(id) ==> positioned(ids.push(id), source) == positioned(ids, source).push(
            (id, last_position(source, id)->0),
        ),
        !source.contains(id) ==> positioned(ids.push(id), source) == positioned(ids, source),
        positioned(seq![], source).len() == 0,
{
    assert(ids.push(id).drop_last() =~= ids);
    lemma_last_position(source, id);
}

/// A report names exactly the tracks that were to be downloaded and were not as
/// unavailable.
pub proof fn lemma_unavailable(plan: DownloadPlan, results: Vec<TrackResult>, r: DownloadReport, id: u64)
    requires
        call_ensures(report, (plan, results), r),
    ensures
        r.requested == plan.requested,
        r.skipped_existing@ == plan.skipped_existing@,
        r.downloaded@.len() == files_of(results@).len(),
        r.downloaded@.to_multiset() == files_of(results@).to_multiset(),
        r.warnings@.to_multiset() == warnings_of(results@).to_multiset(),
        r.unavailable@.contains(id) <==> plan.pending@.contains(id) && !file_ids(files_of(results@)).contains(id),
{
    lemma_sorted_by(files_of(results@), file_key());
    lemma_sorted_by(warnings_of(results@), warning_key());
    lemma_among(plan.pending@, file_ids(files_of(results@)).complement());
}

/// A track is downloaded to its place if its metadata and an address of its
/// audio are there, under an extension that fits the format of the audio.
pub proof fn lemma_target(root: &str, metadata: TrackMetadata, audio: AudioFile, r: Option<TrackTarget>)
    requires
        call_ensures(track_target, (root, Some(&metadata), Some(&audio)), r),
    ensures
        audio.url@.len() > 0 ==> r is Some && r->0.extension@ == safe_extension_of(audio.format@) && r->0.path@
            == destination_of(
            root@,
            LayoutInfo {
                id: metadata.id,
                title: metadata.title@,
                artists: metadata.artists@,
                album: metadata.album@,
                album_artist: metadata.album_artist@,
                track_number: metadata.track_number,
                disc_number: metadata.disc_number,
                total_tracks: metadata.total_tracks,
                format: safe_extension_of(audio.format@),
            },
        ),
        audio.url@.len() == 0 ==> r is None,
{
}

/// The library records a track that was downloaded under its own metadata.
pub proof fn lemma_recorded(
    metadata: TrackMetadata,
    audio: AudioFile,
    target: TrackTarget,
    bytes: u64,
    position: u32,
    r: DownloadedTrack,
    f: DownloadedFile,
    quality: AudioQuality,
)
    requires
        call_ensures(downloaded_track, (&metadata, &audio, &target, bytes, None::<&Collection>, position), r),
        call_ensures(downloaded_file, (&metadata, &audio, &target, bytes, quality), f),
    ensures
        r.ncm_id == metadata.id && r.title@ == metadata.title@ && r.artists@ == metadata.artists@ && r.album@
            == metadata.album@ && r.album_artist@ == metadata.album_artist@,
        r.album_id == metadata.album_id && r.duration_ms == metadata.duration_ms && r.year == metadata.year,
        r.track_number == metadata.track_number && r.disc_number == metadata.disc_number && r.total_tracks
            == metadata.total_tracks,
        r.file_path@ == target.path@ && r.file_size == bytes && r.format@ == target.extension@,
        r.bitrate == audio.bitrate && r.audio_md5@ == audio.md5@ && r.cover_url@ == metadata.cover_url@,
        r.collection_id is None && r.collection_position == position,
        f.track_id == metadata.id && f.title@ == metadata.title@ && f.path@ == target.path@ && f.bytes == bytes,
        f.requested_quality == quality && f.actual_quality == audio.quality && f.format@ == target.extension@,
{
}

/// Files get the tags of their kind, and no others get any.
pub proof fn lemma_tag_kinds(extension: &str, r: Result<TagKind, String>)
    requires
        call_ensures(tag_kind, (extension,), r),
    ensures
        extension@ == "mp3"@ ==> r == Ok::<TagKind, String>(TagKind::Id3v2),
        extension@ == "flac"@ || extension@ == "ogg"@ ==> r == Ok::<TagKind, String>(TagKind::VorbisComments),
        extension@ == "m4a"@ ==> r == Ok::<TagKind, String>(TagKind::Mp4Ilst),
        r is Ok ==> extension@ == "mp3"@ || extension@ == "flac"@ || extension@ == "ogg"@ || extension@ == "m4a"@,
{
    reveal_strlit("mp3");
    reveal_strlit("flac");
    reveal_strlit("ogg");
    reveal_strlit("m4a");
    if extension@ == "mp3"@ {
        assert(extension@[0] == 'm' && extension@[1] == 'p');
    }
    if extension@ == "m4a"@ {
        assert(extension@[1] == '4');
    }
    if extension@ == "flac"@ {
        assert(extension@.len() == 4);
    }
    if extension@ == "ogg"@ {
        assert(extension@[0] == 'o');
    }
}

/// Qualities up to the third are asked for as MP3, and higher ones as FLAC.
pub proof fn lemma_encodings(quality: AudioQuality, r: &'static str)
    requires
        call_ensures(AudioQuality::encode_type, (quality,), r),
    ensures
        quality == AudioQuality::Standard || quality == AudioQuality::Higher || quality == AudioQuality::ExHigh
            ==> r@ == "mp3"@,
        quality != AudioQuality::Standard && quality != AudioQuality::Higher && quality != AudioQuality::ExHigh
            ==> r@ == "flac"@,
{
}

/// Covers are fetched in one size, whether or not their address asks for more.
pub proof fn lemma_cover_size(url: &str, r: Option<String>)
    requires
        call_ensures(cover_download_url, (url,), r),
    ensures
        url@.len() == 0 ==> r is None,
        url@.len() > 0 && url@.contains('?') ==> r is Some && r->0@ == url@ + "&"@ + "param=1000y1000"@,
        url@.len() > 0 && !url@.contains('?') ==> r is Some && r->0@ == url@ + "?"@ + "param=1000y1000"@,
{
}

/// Lyrics are asked for at the new service first, and at the old one only where
/// that gave none; what the first that has any gives is taken.
pub proof fn lemma_lyrics_fetched(value: Json, error: &str, a: LyricsFetch, b: LyricsFetch, c: LyricsFetch, d: LyricsFetch)
    requires
        call_ensures(LyricsFetch::accept, (LyricsFetch::AskNew, Ok(&value)), a),
        call_ensures(LyricsFetch::accept, (LyricsFetch::AskNew, Err(error)), b),
        call_ensures(LyricsFetch::accept, (b, Ok(&value)), c),
        call_ensures(LyricsFetch::accept, (b, Err(error)), d),
    ensures
        stored_lyrics_of(value) is Some ==> a is Done && text_option(a->lyrics) == stored_lyrics_of(value),
        stored_lyrics_of(value) is None ==> a is AskOld,
        b is AskOld,
        c is Done && text_option(c->lyrics) == stored_lyrics_of(value) && c->warning is None,
        d is Done && d->lyrics is None && d->warning is Some,
{
}

/// The lyrics of an answer are those that it holds, without notes, unless
/// nothing is left.
pub proof fn lemma_stored_lyrics(value: Json, lrc: Json, text: String)
    requires
        value.get_of("lrc"@) == Some(lrc),
        lrc.get_of("lyric"@) == Some(Json::Text(text)),
    ensures
        cleaned(text@).len() > 0 ==> stored_lyrics_of(value) == Some(
            trim_of(joined(lines_of(text@).filter(|line: Seq<char>| !is_note(line)), "\n"@)),
        ),
        cleaned(text@).len() == 0 ==> stored_lyrics_of(value) is None,
{
    lemma_only_notes_go(lines_of(text@));
}

/// The parts of a playlist or an album are read from its answer: its own name,
/// its number and its tracks in order.
pub proof fn lemma_discovered(id: u64, response: Json, holder: Json, r: Result<Discovered, MissingPart>, s: Result<Discovered, MissingPart>)
    requires
        call_ensures(Discovered::playlist, (id, &response), r),
        call_ensures(Discovered::album, (id, &response), s),
    ensures
        response.get_of("playlist"@) == Some(holder) ==> r is Ok && r->Ok_0.track_ids@ == plain_ids(
            items_at_of(holder, "trackIds"@),
        ) && r->Ok_0.collection is Some && r->Ok_0.collection->0.id == id && r->Ok_0.collection->0.kind@
            == "playlist"@ && r->Ok_0.collection->0.name@ == string_at_of(holder, "name"@),
        response.get_of("playlist"@) is None ==> r is Err,
        response.get_of("album"@) == Some(holder) ==> s is Ok && s->Ok_0.track_ids@ == plain_ids(
            items_at_of(response, "songs"@),
        ) && s->Ok_0.collection is Some && s->Ok_0.collection->0.id == id && s->Ok_0.collection->0.kind@ == "album"@
            && s->Ok_0.collection->0.name@ == string_at_of(holder, "name"@),
        response.get_of("album"@) is None ==> s is Err,
{
}

/// Ids are read from the items of a list, in order; items without one are left out.
pub proof fn lemma_plain_ids(items: Seq<Json>, item: Json, id: u64)
    ensures
        item.get_of("id"@) == Some(Json::Unsigned(id)) ==> plain_ids(items.push(item)) == plain_ids(items).push(id),
        item.get_of("id"@) is None ==> plain_ids(items.push(item)) == plain_ids(items),
        plain_ids(seq![]).len() == 0,
{
    assert(items.push(item).drop_last() =~= items);
}

/// The warnings of a track are listed in the order of its stages, those that
/// there are.
pub proof fn lemma_warnings(track_id: u64, a: String, b: String, c: String, d: String, r: Vec<DownloadWarning>)
    requires
        call_ensures(collect_warnings, (track_id, Some(a), Some(b), Some(c), Some(d)), r),
    ensures
        r@.len() == 4,
        r@[0].stage == DownloadWarningStage::Lyrics && r@[0].message == a,
        r@[1].stage == DownloadWarningStage::Cover && r@[1].message == b,
        r@[2].stage == DownloadWarningStage::Tagging && r@[2].message == c,
        r@[3].stage == DownloadWarningStage::Sidecar && r@[3].message == d,
        forall|i: int| 0 <= i < 4 ==> (#[trigger] r@[i]).track_id == track_id,
{
}

} // verus!
