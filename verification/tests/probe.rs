use sysprobe::probe::{ProbeAction, ProbeConfig, ProbeEvent, ProbePhase, ProbeState};

#[test]
fn one_mebibyte_in_kibibyte_chunks_is_1024_writes() {
    let cfg = ProbeConfig::new(1_048_576, 1024, 255).unwrap();
    assert_eq!(cfg.chunk_count(), 1024);
    assert_eq!(cfg.bytes_written(), 1_048_576);
}

#[test]
fn chunk_count_rounds_up() {
    let cfg = ProbeConfig::new(1000, 300, 10).unwrap();
    assert_eq!(cfg.chunk_count(), 4);
    assert_eq!(cfg.bytes_written(), 1200);
}

#[test]
fn degenerate_sizings_are_rejected() {
    assert!(ProbeConfig::new(0, 1024, 255).is_none());
    assert!(ProbeConfig::new(1024, 0, 255).is_none());
    assert!(ProbeConfig::new(1024, 1024, 0).is_none());
    // The rounded-up write total would not fit in a byte counter.
    assert!(ProbeConfig::new(u64::MAX, 2, 1).is_none());
    // At the edge it still fits.
    assert!(ProbeConfig::new(u64::MAX, 1, 1).is_some());
}

#[test]
fn full_run_counts_writes_and_accumulates_reads() {
    let cfg = ProbeConfig::new(4096, 1024, 255).unwrap();
    let mut state = cfg.initial_state();
    let mut writes: u64 = 0;
    let mut synced = false;
    let mut sought = false;
    // Simulated file: reads return 255 bytes until the 4096 written bytes
    // are exhausted, then the 16-byte tail, then end of stream.
    let mut remaining: u64 = 4096;
    loop {
        match cfg.next_action(&state) {
            ProbeAction::WriteChunk { len } => {
                assert_eq!(len, 1024);
                writes += 1;
                state = cfg.step(state, ProbeEvent::Written);
            }
            ProbeAction::Sync => {
                synced = true;
                state = cfg.step(state, ProbeEvent::Synced);
            }
            ProbeAction::SeekStart => {
                sought = true;
                state = cfg.step(state, ProbeEvent::Sought);
            }
            ProbeAction::ReadChunk { len } => {
                assert_eq!(len, 255);
                let got = remaining.min(len);
                remaining -= got;
                state = cfg.step(state, ProbeEvent::ReadReturned { len: got });
            }
            ProbeAction::RemoveFile => {
                state = cfg.step(state, ProbeEvent::Removed);
            }
            ProbeAction::Finished => break,
        }
    }
    assert_eq!(writes, 4);
    assert!(synced);
    assert!(sought);
    assert_eq!(state, ProbeState::Done { bytes_read: 4096 });
}

#[test]
fn write_phase_precedes_sync_seek_and_read() {
    let cfg = ProbeConfig::new(2048, 1024, 512).unwrap();
    let mut state = cfg.initial_state();
    assert_eq!(cfg.next_action(&state), ProbeAction::WriteChunk { len: 1024 });
    state = cfg.step(state, ProbeEvent::Written);
    assert_eq!(cfg.next_action(&state), ProbeAction::WriteChunk { len: 1024 });
    state = cfg.step(state, ProbeEvent::Written);
    assert_eq!(cfg.next_action(&state), ProbeAction::Sync);
    state = cfg.step(state, ProbeEvent::Synced);
    assert_eq!(cfg.next_action(&state), ProbeAction::SeekStart);
    state = cfg.step(state, ProbeEvent::Sought);
    assert_eq!(state, ProbeState::Reading { bytes_read: 0 });
    state = cfg.step(state, ProbeEvent::ReadReturned { len: 512 });
    assert_eq!(state, ProbeState::Reading { bytes_read: 512 });
    state = cfg.step(state, ProbeEvent::ReadReturned { len: 0 });
    assert_eq!(state, ProbeState::Removing { bytes_read: 512 });
    assert_eq!(cfg.next_action(&state), ProbeAction::RemoveFile);
    state = cfg.step(state, ProbeEvent::Removed);
    assert_eq!(state, ProbeState::Done { bytes_read: 512 });
    assert_eq!(cfg.next_action(&state), ProbeAction::Finished);
}

#[test]
fn phase_names() {
    assert_eq!(ProbePhase::Create.name(), "create");
    assert_eq!(ProbePhase::Write.name(), "write");
    assert_eq!(ProbePhase::Sync.name(), "sync");
    assert_eq!(ProbePhase::Seek.name(), "seek");
    assert_eq!(ProbePhase::Read.name(), "read");
    assert_eq!(ProbePhase::Remove.name(), "remove");
}
