use ncm_tui::playback_cache::{
    CacheEntry, CacheState, CompletionState, FinishOutcome, Lookup, PlaybackCache, DEFAULT_PLAYBACK_CACHE_BYTES,
};
use ncm_tui::player::{
    decode_step, packet_step, samples_left, seek_target, within_track, AudioInfo, DecodeEvent, DecoderStep, PacketEvent,
    PlaybackClock,
};
use ncm_tui::streaming::content_length;
use ncm_tui::time::{Duration, Instant};

const START: Instant = Instant { nanos: 5_000_000_000 };

fn plus(span: Duration) -> Instant {
    START.after(span)
}

#[test]
fn playback_clock_is_smooth_pauseable_seekable_and_clamped() {
    let mut clock = PlaybackClock {
        anchor_position: Duration::from_millis(250),
        anchor_instant: START,
        paused: false,
        duration: Duration::from_secs(2),
        started: true,
    };
    assert_eq!(
        clock.position_at(plus(Duration::from_micros(5_555))),
        Duration::from_micros(255_555)
    );
    assert!(
        clock.position_at(plus(Duration::from_millis(20)))
            >= clock.position_at(plus(Duration::from_millis(10)))
    );

    clock.anchor_position = clock.position_at(plus(Duration::from_millis(50)));
    clock.paused = true;
    assert_eq!(clock.position_at(plus(Duration::from_secs(1))), Duration::from_millis(300));

    clock.paused = false;
    clock.anchor_instant = plus(Duration::from_secs(1));
    assert_eq!(clock.position_at(plus(Duration::from_millis(1_100))), Duration::from_millis(400));

    clock.anchor_position = Duration::from_millis(1_900);
    clock.anchor_instant = START;
    assert_eq!(clock.position_at(plus(Duration::from_secs(1))), Duration::from_secs(2));
}

#[test]
fn idle_clock_stays_at_zero() {
    let clock = PlaybackClock::new(START);
    assert_eq!(clock.position_at(plus(Duration::from_secs(5))), Duration::from_secs(0));
}

#[test]
fn the_clock_is_toggled_and_sought() {
    let mut clock = PlaybackClock::new(START);
    clock.reset(Duration::from_secs(10), START);
    clock.toggle(plus(Duration::from_secs(2)));
    assert_eq!(clock.position_at(plus(Duration::from_secs(9))), Duration::from_secs(2));
    clock.toggle(plus(Duration::from_secs(9)));
    assert_eq!(clock.position_at(plus(Duration::from_secs(10))), Duration::from_secs(3));
    clock.seek(Duration::from_secs(8), plus(Duration::from_secs(10)));
    assert_eq!(clock.position_at(plus(Duration::from_secs(11))), Duration::from_secs(9));
    let ten = Duration::from_secs(10);
    assert_eq!(seek_target(Duration::from_secs(3), -5, ten), Duration::from_secs(0));
    assert_eq!(seek_target(Duration::from_secs(3), 5, ten), Duration::from_secs(8));
    assert_eq!(seek_target(Duration::from_secs(8), 5, ten), ten);
}

#[test]
fn rates_are_written_as_floats_would_be() {
    for rate in [8_000_u32, 11_025, 22_050, 44_100, 48_000, 88_200, 96_000, 176_400, 192_000, 37_650, 44_150] {
        let expected = if rate % 1_000 == 0 {
            format!("FLAC · {}kHz · 24bit", rate / 1_000)
        } else {
            format!("FLAC · {:.1}kHz · 24bit", rate as f32 / 1_000.0)
        };
        let info = AudioInfo { codec: "flac".to_owned(), sample_rate: rate, channels: 2, bits_per_sample: Some(24) };
        assert_eq!(info.compact(), expected);
    }
    assert_eq!(AudioInfo::default().compact(), "");
}

#[test]
fn packets_of_other_tracks_are_passed_over() {
    assert_eq!(packet_step(PacketEvent::Packet(1), 1), DecoderStep::Decode);
    assert_eq!(packet_step(PacketEvent::Packet(2), 1), DecoderStep::Next);
    assert_eq!(packet_step(PacketEvent::ResetRequired, 1), DecoderStep::Rebuild);
    assert_eq!(packet_step(PacketEvent::Ended, 1), DecoderStep::Stop);
    assert_eq!(decode_step(DecodeEvent::Frames(3)), DecoderStep::Play);
    assert_eq!(decode_step(DecodeEvent::Frames(0)), DecoderStep::Next);
    assert_eq!(decode_step(DecodeEvent::Corrupt), DecoderStep::Next);
    assert_eq!(decode_step(DecodeEvent::ResetRequired), DecoderStep::Rebuild);
    assert_eq!(decode_step(DecodeEvent::Failed), DecoderStep::Stop);
    assert_eq!(samples_left(5, 2), Some(3));
    assert_eq!(samples_left(5, 5), None);
}

#[test]
fn lengths_come_from_the_answer_or_from_the_service() {
    assert_eq!(content_length(Some(5), 9), Some(5));
    assert_eq!(content_length(None, 9), Some(9));
    assert_eq!(content_length(None, 0), None);
}

fn complete_entry(cache: &mut PlaybackCache, id: u64, size: u64) {
    let mut reservation = cache.reserve(id, "flac").unwrap();
    let name = reservation.completion.file_name.clone();
    assert!(matches!(
        reservation.completion.finish(cache, Some(size)),
        FinishOutcome::Registered { .. }
    ));
    cache.release(&name, &mut reservation.completion.state);
    shrink(cache, &[]);
}

fn shrink(cache: &mut PlaybackCache, kept: &[u64]) {
    let kept = kept.to_vec();
    while let Some(id) = cache.next_eviction(&kept) {
        cache.forget(id);
    }
}

fn found(cache: &mut PlaybackCache, id: u64) -> bool {
    let size = cache.entry(id).map(|entry| entry.size);
    match cache.lookup(id, size) {
        Lookup::Hit { file_name, .. } => {
            let mut done = CompletionState::Complete;
            cache.release(&file_name, &mut done);
            true
        }
        _ => false,
    }
}

#[test]
fn completed_entries_survive_reopening_and_incomplete_entries_do_not() {
    let mut cache = PlaybackCache::new(1024);
    complete_entry(&mut cache, 7, 12);
    let mut incomplete = cache.reserve(8, "mp3").unwrap();
    let name = incomplete.completion.file_name.clone();
    assert!(cache.release(&name, &mut incomplete.completion.state));
    let saved = CacheState {
        max_bytes: cache.state().max_bytes,
        access_clock: cache.state().access_clock,
        entries: cache.state().entries.clone(),
    };

    let mut reopened = PlaybackCache::restore(saved, &vec![Some(12)]);
    assert!(found(&mut reopened, 7));
    assert!(!found(&mut reopened, 8));
    assert_eq!(reopened.stats().max_bytes, 1024);
}

#[test]
fn a_late_completion_cannot_restore_an_abandoned_download() {
    let mut cache = PlaybackCache::new(1024);
    let mut reservation = cache.reserve(9, "mp3").unwrap();
    let name = reservation.completion.file_name.clone();
    assert!(cache.release(&name, &mut reservation.completion.state));
    assert!(matches!(reservation.completion.finish(&mut cache, Some(7)), FinishOutcome::Ignored));
    assert!(!found(&mut cache, 9));
}

#[test]
fn a_file_that_another_song_keeps_is_not_removed() {
    let entry = |song_id, file_name: &str| CacheEntry {
        song_id,
        file_name: file_name.to_owned(),
        extension: "mp3".to_owned(),
        size: 5,
        last_accessed: 1,
    };
    let saved = CacheState { max_bytes: 10, access_clock: 1, entries: vec![entry(5, "9.mp3.cache")] };
    let mut cache = PlaybackCache::restore(saved, &vec![Some(5)]);
    let mut reservation = cache.reserve(9, "mp3").unwrap();
    let name = reservation.completion.file_name.clone();
    assert!(!cache.release(&name, &mut reservation.completion.state));
    assert!(matches!(reservation.completion.finish(&mut cache, Some(7)), FinishOutcome::Ignored));
    assert!(!found(&mut cache, 9));
}

#[test]
fn a_download_is_completed_once() {
    let mut cache = PlaybackCache::new(1);
    let mut reservation = cache.reserve(9, "mp3").unwrap();
    assert!(matches!(reservation.completion.finish(&mut cache, Some(7)), FinishOutcome::Registered { obsolete: None }));
    assert_eq!(cache.stats().used_bytes, 7);
    assert!(matches!(reservation.completion.finish(&mut cache, Some(8)), FinishOutcome::Ignored));
    assert_eq!(cache.stats().used_bytes, 7);
    assert_eq!(cache.next_eviction(&vec![]), None);
    assert!(matches!(cache.lookup(9, Some(7)), Lookup::Hit { size: 7, .. }));

    let mut empty = cache.reserve(10, "mp3").unwrap();
    assert!(matches!(empty.completion.finish(&mut cache, Some(0)), FinishOutcome::Rejected { remove_file: false }));
    assert!(!found(&mut cache, 10));
}

#[test]
fn seeking_stays_within_the_track() {
    let two = Duration::from_secs(2);
    let three = Duration::from_secs(3);
    assert_eq!(within_track(three, Some(two)), two);
    assert_eq!(within_track(two, Some(three)), two);
    assert_eq!(within_track(three, None), three);
}

#[test]
fn capacity_is_persistent_and_evicts_oldest_entries() {
    let mut cache = PlaybackCache::new(20);
    complete_entry(&mut cache, 1, 10);
    complete_entry(&mut cache, 2, 10);
    cache.set_max_bytes(10);
    shrink(&mut cache, &[]);
    let stats = cache.stats();
    assert_eq!(stats.used_bytes, 10);
    assert_eq!(stats.entries, 1);
    assert!(!found(&mut cache, 1));
    assert!(found(&mut cache, 2));
    assert_eq!(cache.state().max_bytes, 10);
}

#[test]
fn accessing_an_entry_refreshes_its_lru_position() {
    let mut cache = PlaybackCache::new(30);
    complete_entry(&mut cache, 1, 10);
    complete_entry(&mut cache, 2, 10);
    assert!(found(&mut cache, 1));
    complete_entry(&mut cache, 3, 10);

    cache.set_max_bytes(20);
    shrink(&mut cache, &[]);

    assert!(found(&mut cache, 1));
    assert!(!found(&mut cache, 2));
    assert!(found(&mut cache, 3));
}

#[test]
fn clear_skips_an_active_entry() {
    let mut cache = PlaybackCache::new(1024);
    complete_entry(&mut cache, 1, 5);
    complete_entry(&mut cache, 2, 6);
    let name = match cache.lookup(1, Some(5)) {
        Lookup::Hit { file_name, .. } => file_name,
        _ => panic!("the entry is there"),
    };
    let mut pass = cache.begin_clear();
    while let Some(id) = cache.next_idle() {
        let size = cache.entry(id).unwrap().size;
        cache.forget(id);
        pass.removed(size);
    }
    let report = pass.report(&cache);
    assert_eq!(report.removed_bytes, 6);
    assert_eq!(report.retained_active, 1);
    assert_eq!(report.stats.entries, 1);
    let mut done = CompletionState::Complete;
    cache.release(&name, &mut done);
    assert_eq!(cache.next_idle(), Some(1));
}

#[test]
fn a_stale_file_is_dropped_and_a_song_in_use_is_not_replaced() {
    let mut cache = PlaybackCache::new(DEFAULT_PLAYBACK_CACHE_BYTES);
    complete_entry(&mut cache, 1, 5);
    assert!(matches!(cache.lookup(1, Some(4)), Lookup::Stale { .. }));
    assert!(matches!(cache.lookup(1, Some(5)), Lookup::Miss));
    complete_entry(&mut cache, 1, 5);
    assert!(matches!(cache.lookup(1, Some(5)), Lookup::Hit { .. }));
    assert!(cache.reserve(1, "flac").is_err());
    let mut empty = cache.reserve(3, "../x").unwrap();
    assert!(!empty.completion.file_name.contains('/'));
    assert!(matches!(empty.completion.finish(&mut cache, Some(0)), FinishOutcome::Rejected { .. }));
}
