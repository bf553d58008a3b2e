//! Decision logic of the sequential disk-throughput benchmark.
//!
//! One probe run writes `chunk_count` zero-filled chunks to a scratch file,
//! forces them to stable storage, seeks back to the start, reads until end
//! of stream while accumulating the byte count, and finally removes the
//! file. The state machine here decides, from the current state and the
//! outcome of the last file operation, which operation comes next; the
//! caller performs the operations, times the two phases, and derives the
//! transfer rates.

use vstd::prelude::*;

verus! {

use vstd::arithmetic::div_mod::lemma_div_pos_is_pos;
use vstd::arithmetic::div_mod::lemma_fundamental_div_mod;

/// A usable sizing issues at least one write chunk, and never more chunks
/// than bytes.
proof fn lemma_chunk_count_bounds(cfg: ProbeConfig)
    requires
        cfg.wf(),
    ensures
        1 <= cfg.spec_chunk_count() <= cfg.total_bytes,
{
    let t = cfg.total_bytes as int;
    let w = cfg.write_chunk as int;
    lemma_fundamental_div_mod(t, w);
    lemma_div_pos_is_pos(t, w);
    if t % w == 0 {
        assert(1 <= t / w <= t) by (nonlinear_arith)
            requires
                t == w * (t / w) + t % w,
                t % w == 0,
                t >= 1,
                w >= 1,
                t / w >= 0,
        ;
    } else {
        assert(t / w + 1 <= t) by (nonlinear_arith)
            requires
                t == w * (t / w) + t % w,
                t % w >= 1,
                w >= 1,
                t / w >= 0,
        ;
    }
}

/// Sizing of one probe run: how many bytes to write in chunks of which size,
/// and the chunk size of the read-back phase.
#[derive(Clone, Copy, PartialEq, Eq, Structural, Debug)]
pub struct ProbeConfig {
    pub total_bytes: u64,
    pub write_chunk: u64,
    pub read_chunk: u64,
}

/// The phase of a probe run in which a file operation can fail.
#[derive(Clone, Copy, PartialEq, Eq, Structural, Debug)]
pub enum ProbePhase {
    Create,
    Write,
    Sync,
    Seek,
    Read,
    Remove,
}

/// Where a probe run stands: which phase is active and what it has
/// accumulated so far.
#[derive(Clone, Copy, PartialEq, Eq, Structural, Debug)]
pub enum ProbeState {
    Writing { chunks_done: u64 },
    Syncing,
    Seeking,
    Reading { bytes_read: u64 },
    Removing { bytes_read: u64 },
    Done { bytes_read: u64 },
}

/// The file operation the caller is to perform next.
#[derive(Clone, Copy, PartialEq, Eq, Structural, Debug)]
pub enum ProbeAction {
    WriteChunk { len: u64 },
    Sync,
    SeekStart,
    ReadChunk { len: u64 },
    RemoveFile,
    Finished,
}

/// The outcome of a performed file operation: for a read, how many bytes
/// came back (zero means end of stream).
#[derive(Clone, Copy, PartialEq, Eq, Structural, Debug)]
pub enum ProbeEvent {
    Written,
    Synced,
    Sought,
    ReadReturned { len: u64 },
    Removed,
}

impl ProbeConfig {
    /// A usable sizing: both phases move at least one byte per call, and the
    /// write phase's rounded-up total still fits in a byte counter.
    pub open spec fn wf(self) -> bool {
        &&& self.total_bytes >= 1
        &&& self.write_chunk >= 1
        &&& self.read_chunk >= 1
        &&& self.total_bytes + self.write_chunk - 1 <= u64::MAX
    }

    /// Number of chunks the write phase issues: `total_bytes / write_chunk`
    /// rounded up.
    pub open spec fn spec_chunk_count(self) -> int {
        if self.total_bytes as int % self.write_chunk as int == 0 {
            self.total_bytes as int / self.write_chunk as int
        } else {
            self.total_bytes as int / self.write_chunk as int + 1
        }
    }

    /// Builds a sizing, rejecting one whose phases could not make progress
    /// or whose rounded-up write total would not fit in a byte counter.
    pub fn new(total_bytes: u64, write_chunk: u64, read_chunk: u64) -> (r: Option<ProbeConfig>)
        ensures
            r is Some <==> total_bytes >= 1 && write_chunk >= 1 && read_chunk >= 1 && total_bytes
                + write_chunk - 1 <= u64::MAX,
            r matches Some(cfg) ==> cfg == (ProbeConfig { total_bytes, write_chunk, read_chunk })
                && cfg.wf(),
    {
        if total_bytes >= 1 && write_chunk >= 1 && read_chunk >= 1 && total_bytes - 1
            <= u64::MAX - write_chunk {
            Some(ProbeConfig { total_bytes, write_chunk, read_chunk })
        } else {
            None
        }
    }

    /// How many chunks the write phase issues.
    pub fn chunk_count(&self) -> (r: u64)
        requires
            self.wf(),
        ensures
            r == self.spec_chunk_count(),
            r >= 1,
    {
        let d: u64 = self.total_bytes / self.write_chunk;
        let rem: u64 = self.total_bytes % self.write_chunk;
        proof {
            lemma_fundamental_div_mod(self.total_bytes as int, self.write_chunk as int);
            if rem == 0 {
                assert(d >= 1) by (nonlinear_arith)
                    requires
                        self.total_bytes as int == self.write_chunk as int * d,
                        self.total_bytes >= 1,
                        self.write_chunk >= 1,
                ;
            } else {
                assert(d < u64::MAX) by (nonlinear_arith)
                    requires
                        self.total_bytes as int == self.write_chunk as int * d + rem,
                        1 <= rem < self.write_chunk,
                        self.total_bytes <= u64::MAX,
                ;
            }
        }
        if rem == 0 {
            d
        } else {
            d + 1
        }
    }

    /// The byte count the write phase moves in all: the chunk count times
    /// the chunk size. Chunk rounding can push it up to `write_chunk - 1`
    /// bytes past `total_bytes`; it never falls short.
    pub fn bytes_written(&self) -> (r: u64)
        requires
            self.wf(),
        ensures
            r == self.spec_chunk_count() * self.write_chunk,
            self.total_bytes <= r <= self.total_bytes + self.write_chunk - 1,
    {
        let cc = self.chunk_count();
        proof {
            lemma_fundamental_div_mod(self.total_bytes as int, self.write_chunk as int);
            let t = self.total_bytes as int;
            let w = self.write_chunk as int;
            let d = t / w;
            let rem = t % w;
            if rem == 0 {
                assert(d * w == t) by (nonlinear_arith)
                    requires
                        t == w * d + rem,
                        rem == 0,
                ;
            } else {
                assert((d + 1) * w == t - rem + w) by (nonlinear_arith)
                    requires
                        t == w * d + rem,
                ;
            }
        }
        cc * self.write_chunk
    }

    /// The state in which a run begins: about to write its first chunk.
    pub fn initial_state(&self) -> (st: ProbeState)
        requires
            self.wf(),
        ensures
            st == (ProbeState::Writing { chunks_done: 0 }),
            self.state_wf(st),
    {
        proof {
            lemma_chunk_count_bounds(*self);
        }
        ProbeState::Writing { chunks_done: 0 }
    }

    /// A state a run can actually be in: the write phase never counts past
    /// the number of chunks it issues.
    pub open spec fn state_wf(self, st: ProbeState) -> bool {
        match st {
            ProbeState::Writing { chunks_done } => chunks_done < self.spec_chunk_count(),
            _ => true,
        }
    }

    /// The operation owed in a state.
    pub open spec fn spec_next_action(self, st: ProbeState) -> ProbeAction {
        match st {
            ProbeState::Writing { .. } => ProbeAction::WriteChunk { len: self.write_chunk },
            ProbeState::Syncing => ProbeAction::Sync,
            ProbeState::Seeking => ProbeAction::SeekStart,
            ProbeState::Reading { .. } => ProbeAction::ReadChunk { len: self.read_chunk },
            ProbeState::Removing { .. } => ProbeAction::RemoveFile,
            ProbeState::Done { .. } => ProbeAction::Finished,
        }
    }

    /// Which operation the caller is to perform next.
    pub fn next_action(&self, st: &ProbeState) -> (a: ProbeAction)
        ensures
            a == self.spec_next_action(*st),
    {
        match st {
            ProbeState::Writing { .. } => ProbeAction::WriteChunk { len: self.write_chunk },
            ProbeState::Syncing => ProbeAction::Sync,
            ProbeState::Seeking => ProbeAction::SeekStart,
            ProbeState::Reading { .. } => ProbeAction::ReadChunk { len: self.read_chunk },
            ProbeState::Removing { .. } => ProbeAction::RemoveFile,
            ProbeState::Done { .. } => ProbeAction::Finished,
        }
    }

    /// The event reports the outcome of the operation the state owes, and a
    /// read outcome does not overflow the byte counter.
    pub open spec fn event_matches(self, st: ProbeState, ev: ProbeEvent) -> bool {
        match (st, ev) {
            (ProbeState::Writing { .. }, ProbeEvent::Written) => true,
            (ProbeState::Syncing, ProbeEvent::Synced) => true,
            (ProbeState::Seeking, ProbeEvent::Sought) => true,
            (
                ProbeState::Reading { bytes_read },
                ProbeEvent::ReadReturned { len },
            ) => bytes_read + len <= u64::MAX,
            (ProbeState::Removing { .. }, ProbeEvent::Removed) => true,
            _ => false,
        }
    }

    /// The transition relation: a written chunk advances the write count
    /// (the last one moves on to the durability barrier), a sync leads to
    /// the seek, a seek opens the read phase at zero, a read adds what came
    /// back or, at end of stream, moves on to removal, and removal finishes
    /// the run carrying the read total.
    pub open spec fn spec_step(self, st: ProbeState, ev: ProbeEvent) -> ProbeState {
        match (st, ev) {
            (ProbeState::Writing { chunks_done }, ProbeEvent::Written) => {
                if chunks_done + 1 < self.spec_chunk_count() {
                    ProbeState::Writing { chunks_done: (chunks_done + 1) as u64 }
                } else {
                    ProbeState::Syncing
                }
            },
            (ProbeState::Syncing, ProbeEvent::Synced) => ProbeState::Seeking,
            (ProbeState::Seeking, ProbeEvent::Sought) => ProbeState::Reading { bytes_read: 0 },
            (ProbeState::Reading { bytes_read }, ProbeEvent::ReadReturned { len }) => {
                if len == 0 {
                    ProbeState::Removing { bytes_read }
                } else {
                    ProbeState::Reading { bytes_read: (bytes_read + len) as u64 }
                }
            },
            (ProbeState::Removing { bytes_read }, ProbeEvent::Removed) => ProbeState::Done {
                bytes_read,
            },
            _ => st,
        }
    }

    /// Advances the run by one reported outcome.
    pub fn step(&self, st: ProbeState, ev: ProbeEvent) -> (r: ProbeState)
        requires
            self.wf(),
            self.state_wf(st),
            self.event_matches(st, ev),
        ensures
            r == self.spec_step(st, ev),
            self.state_wf(r),
    {
        match (st, ev) {
            (ProbeState::Writing { chunks_done }, ProbeEvent::Written) => {
                let cc = self.chunk_count();
                if chunks_done + 1 < cc {
                    ProbeState::Writing { chunks_done: chunks_done + 1 }
                } else {
                    ProbeState::Syncing
                }
            },
            (ProbeState::Syncing, ProbeEvent::Synced) => ProbeState::Seeking,
            (ProbeState::Seeking, ProbeEvent::Sought) => ProbeState::Reading { bytes_read: 0 },
            (ProbeState::Reading { bytes_read }, ProbeEvent::ReadReturned { len }) => {
                if len == 0 {
                    ProbeState::Removing { bytes_read }
                } else {
                    ProbeState::Reading { bytes_read: bytes_read + len }
                }
            },
            (ProbeState::Removing { bytes_read }, ProbeEvent::Removed) => ProbeState::Done {
                bytes_read,
            },
            (other, _) => other,
        }
    }
}

impl ProbePhase {
    /// The phase's name, for reporting which file operation failed.
    pub fn name(&self) -> (r: &'static str)
        ensures
            r@ == self.spec_name(),
    {
        match self {
            ProbePhase::Create => "create",
            ProbePhase::Write => "write",
            ProbePhase::Sync => "sync",
            ProbePhase::Seek => "seek",
            ProbePhase::Read => "read",
            ProbePhase::Remove => "remove",
        }
    }

    /// The name of each phase.
    pub open spec fn spec_name(self) -> Seq<char> {
        match self {
            ProbePhase::Create => "create"@,
            ProbePhase::Write => "write"@,
            ProbePhase::Sync => "sync"@,
            ProbePhase::Seek => "seek"@,
            ProbePhase::Read => "read"@,
            ProbePhase::Remove => "remove"@,
        }
    }
}

/// The state a run reaches from `st` after the outcomes in `evs`, reported
/// in order.
pub open spec fn run_events(cfg: ProbeConfig, st: ProbeState, evs: Seq<ProbeEvent>) -> ProbeState
    decreases evs.len(),
{
    if evs.len() == 0 {
        st
    } else {
        run_events(cfg, cfg.spec_step(st, evs[0]), evs.drop_first())
    }
}

/// The write phase performs exactly `chunk_count` writes: from the initial
/// state, the run is still writing after every shorter prefix of successful
/// writes, and moves on to the durability barrier at exactly the
/// `chunk_count`-th one.
pub proof fn lemma_write_phase_count(cfg: ProbeConfig, j: int)
    requires
        cfg.wf(),
        0 <= j <= cfg.spec_chunk_count(),
    ensures
        j < cfg.spec_chunk_count() ==> run_events(
            cfg,
            ProbeState::Writing { chunks_done: 0 },
            Seq::new(j as nat, |i: int| ProbeEvent::Written),
        ) == (ProbeState::Writing { chunks_done: j as u64 }),
        j == cfg.spec_chunk_count() ==> run_events(
            cfg,
            ProbeState::Writing { chunks_done: 0 },
            Seq::new(j as nat, |i: int| ProbeEvent::Written),
        ) == ProbeState::Syncing,
    decreases j,
{
    lemma_chunk_count_bounds(cfg);
    if j > 0 {
        lemma_write_phase_count(cfg, j - 1);
        let start = ProbeState::Writing { chunks_done: 0 };
        let shorter = Seq::new((j - 1) as nat, |i: int| ProbeEvent::Written);
        let full = Seq::new(j as nat, |i: int| ProbeEvent::Written);
        lemma_run_events_snoc(cfg, start, shorter, ProbeEvent::Written);
        assert(full =~= shorter.push(ProbeEvent::Written));
        assert(run_events(cfg, start, shorter) == (ProbeState::Writing {
            chunks_done: (j - 1) as u64,
        }));
        assert(run_events(cfg, start, full) == cfg.spec_step(
            ProbeState::Writing { chunks_done: (j - 1) as u64 },
            ProbeEvent::Written,
        ));
    }
}

/// Appending one more outcome to a run steps the state it had reached.
proof fn lemma_run_events_snoc(cfg: ProbeConfig, st: ProbeState, evs: Seq<ProbeEvent>, ev: ProbeEvent)
    ensures
        run_events(cfg, st, evs.push(ev)) == cfg.spec_step(run_events(cfg, st, evs), ev),
    decreases evs.len(),
{
    if evs.len() == 0 {
        assert(evs.push(ev)[0] == ev);
        assert(evs.push(ev).drop_first() =~= evs);
        assert(run_events(cfg, st, evs.push(ev)) == run_events(
            cfg,
            cfg.spec_step(st, ev),
            evs,
        ));
    } else {
        assert(evs.push(ev)[0] == evs[0]);
        assert(evs.push(ev).drop_first() =~= evs.drop_first().push(ev));
        assert(run_events(cfg, st, evs.push(ev)) == run_events(
            cfg,
            cfg.spec_step(st, evs[0]),
            evs.drop_first().push(ev),
        ));
        lemma_run_events_snoc(cfg, cfg.spec_step(st, evs[0]), evs.drop_first(), ev);
    }
}

} // verus!
