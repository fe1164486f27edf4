//! Where a song can be played from.

use vstd::prelude::*;

verus! {

#[derive(Clone, Debug, PartialEq, Eq)]
pub struct PlaybackSource {
    pub url: String,
    pub format: String,
    pub bitrate: u64,
    pub size: u64,
}

#[verifier::ext_equal]
pub struct SourceInfo {
    pub url: Seq<char>,
    pub format: Seq<char>,
    pub bitrate: nat,
    pub size: nat,
}

impl View for PlaybackSource {
    type V = SourceInfo;

    open spec fn view(&self) -> SourceInfo {
        SourceInfo { url: self.url@, format: self.format@, bitrate: self.bitrate as nat, size: self.size as nat }
    }
}

/// How much of a stream is fetched before it is played.
pub const PREFETCH_BYTES: u64 = 512 * 1024;

/// The length of a stream: what the server says, or else the size of the source
/// where that is known.
pub fn content_length(reported: Option<u64>, source_size: u64) -> (r: Option<u64>)
    ensures
        r == match reported {
            Some(n) => Some(n),
            None => if source_size > 0 {
                Some(source_size)
            } else {
                None
            },
        },
{
    match reported {
        Some(n) => Some(n),
        None => if source_size > 0 {
            Some(source_size)
        } else {
            None
        },
    }
}

/// The length of a stream is what the server says; where it does not, the size
/// of the source, unless that is not known either.
pub proof fn lemma_content_length(reported: Option<u64>, source_size: u64, r: Option<u64>)
    requires
        call_ensures(content_length, (reported, source_size), r),
    ensures
        reported is Some ==> r == reported,
        reported is None && source_size > 0 ==> r == Some(source_size),
        reported is None && source_size == 0 ==> r is None,
{
}

} // verus!
