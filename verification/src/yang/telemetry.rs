//! Client-side telemetry, gathered between two reports to the server.

use crate::yin_yang_proto::packets::ClientTelemetry;
use vstd::prelude::*;

verus! {

/// The sum of two counts, up to the limit of 32 bits.
pub open spec fn capped_sum32(a: u32, b: u32) -> u32 {
    if a + b <= u32::MAX {
        (a + b) as u32
    } else {
        u32::MAX
    }
}

/// The sum of a total and a span, up to the limit of 64 bits.
pub open spec fn capped_sum64(a: u64, b: u32) -> u64 {
    if a + b <= u64::MAX {
        (a + b) as u64
    } else {
        u64::MAX
    }
}

/// The average of `count` values with the given total: zero for none, and the
/// low 32 bits of the quotient.
pub open spec fn average_of(total: u64, count: u32) -> u32 {
    if count > 0 {
        ((total / count as u64) % 0x1_0000_0000) as u32
    } else {
        0
    }
}

pub fn average(total: u64, count: u32) -> (r: u32)
    ensures
        r == average_of(total, count),
{
    if count > 0 {
        (total / count as u64 % 0x1_0000_0000) as u32
    } else {
        0
    }
}

/// Counts what the reassembler and the renderer report.
#[derive(Clone, Copy, Debug, PartialEq, Eq, Structural)]
pub struct ClientTelemetryAccumulator {
    pub unrecoverable_frames: u32,
    pub recovered_frames: u32,
    pub recovered_fragments: u32,
    pub presented_frames: u32,
    pub render_dropped_frames: u32,
    pub total_decode_queue_us: u64,
    pub total_render_queue_us: u64,
}

impl ClientTelemetryAccumulator {
    /// Nothing counted yet.
    pub open spec fn zero() -> ClientTelemetryAccumulator {
        ClientTelemetryAccumulator {
            unrecoverable_frames: 0,
            recovered_frames: 0,
            recovered_fragments: 0,
            presented_frames: 0,
            render_dropped_frames: 0,
            total_decode_queue_us: 0,
            total_render_queue_us: 0,
        }
    }

    /// What is reported of the counts.
    pub open spec fn report(self) -> ClientTelemetry {
        ClientTelemetry {
            unrecoverable_frames: self.unrecoverable_frames,
            recovered_frames: self.recovered_frames,
            recovered_fragments: self.recovered_fragments,
            presented_frames: self.presented_frames,
            render_dropped_frames: self.render_dropped_frames,
            avg_decode_queue_us: average_of(self.total_decode_queue_us, self.presented_frames),
            avg_render_queue_us: average_of(self.total_render_queue_us, self.presented_frames),
        }
    }

    /// The counts with the outcome of one video datagram.
    pub open spec fn with_reassembly(
        self,
        unrecoverable_frames: u32,
        recovered_fragments: u32,
        recovered_frame: bool,
    ) -> ClientTelemetryAccumulator {
        ClientTelemetryAccumulator {
            unrecoverable_frames: capped_sum32(self.unrecoverable_frames, unrecoverable_frames),
            recovered_fragments: capped_sum32(self.recovered_fragments, recovered_fragments),
            recovered_frames: if recovered_frame {
                capped_sum32(self.recovered_frames, 1)
            } else {
                self.recovered_frames
            },
            ..self
        }
    }

    /// The counts with one more presented frame.
    pub open spec fn with_render(
        self,
        decode_queue_us: u32,
        render_queue_us: u32,
        dropped_frames: u32,
    ) -> ClientTelemetryAccumulator {
        ClientTelemetryAccumulator {
            presented_frames: capped_sum32(self.presented_frames, 1),
            render_dropped_frames: capped_sum32(self.render_dropped_frames, dropped_frames),
            total_decode_queue_us: capped_sum64(self.total_decode_queue_us, decode_queue_us),
            total_render_queue_us: capped_sum64(self.total_render_queue_us, render_queue_us),
            ..self
        }
    }

    /// Counts the outcome of one video datagram.
    pub fn record_reassembly(
        &mut self,
        unrecoverable_frames: u32,
        recovered_fragments: u32,
        recovered_frame: bool,
    )
        ensures
            *final(self) == old(self).with_reassembly(
                unrecoverable_frames,
                recovered_fragments,
                recovered_frame,
            ),
    {
        self.unrecoverable_frames = self.unrecoverable_frames.saturating_add(unrecoverable_frames);
        self.recovered_fragments = self.recovered_fragments.saturating_add(recovered_fragments);
        if recovered_frame {
            self.recovered_frames = self.recovered_frames.saturating_add(1);
        }
    }

    /// Counts one presented frame.
    pub fn record_render(&mut self, decode_queue_us: u32, render_queue_us: u32, dropped_frames: u32)
        ensures
            *final(self) == old(self).with_render(
                decode_queue_us,
                render_queue_us,
                dropped_frames,
            ),
    {
        self.presented_frames = self.presented_frames.saturating_add(1);
        self.render_dropped_frames = self.render_dropped_frames.saturating_add(dropped_frames);
        self.total_decode_queue_us = self.total_decode_queue_us.saturating_add(
            decode_queue_us as u64,
        );
        self.total_render_queue_us = self.total_render_queue_us.saturating_add(
            render_queue_us as u64,
        );
    }

    /// Reports the counts and starts again from zero.
    pub fn drain(&mut self) -> (telemetry: ClientTelemetry)
        ensures
            telemetry == old(self).report(),
            *final(self) == ClientTelemetryAccumulator::zero(),
    {
        let presented = self.presented_frames;
        let telemetry = ClientTelemetry {
            unrecoverable_frames: self.unrecoverable_frames,
            recovered_frames: self.recovered_frames,
            recovered_fragments: self.recovered_fragments,
            presented_frames: presented,
            render_dropped_frames: self.render_dropped_frames,
            avg_decode_queue_us: average(self.total_decode_queue_us, presented),
            avg_render_queue_us: average(self.total_render_queue_us, presented),
        };
        *self = ClientTelemetryAccumulator::default();
        telemetry
    }
}

impl Default for ClientTelemetryAccumulator {
    fn default() -> (r: ClientTelemetryAccumulator)
        ensures
            r == ClientTelemetryAccumulator::zero(),
    {
        ClientTelemetryAccumulator {
            unrecoverable_frames: 0,
            recovered_frames: 0,
            recovered_fragments: 0,
            presented_frames: 0,
            render_dropped_frames: 0,
            total_decode_queue_us: 0,
            total_render_queue_us: 0,
        }
    }
}

/// One record of the reassembler or of the renderer.
pub enum Record {
    Reassembly { unrecoverable_frames: u32, recovered_fragments: u32, recovered_frame: bool },
    Render { decode_queue_us: u32, render_queue_us: u32, dropped_frames: u32 },
}

impl ClientTelemetryAccumulator {
    /// The counts with a record.
    pub open spec fn with_record(self, record: Record) -> ClientTelemetryAccumulator {
        match record {
            Record::Reassembly {
                unrecoverable_frames,
                recovered_fragments,
                recovered_frame,
            } => self.with_reassembly(unrecoverable_frames, recovered_fragments, recovered_frame),
            Record::Render { decode_queue_us, render_queue_us, dropped_frames } => self.with_render(
                decode_queue_us,
                render_queue_us,
                dropped_frames,
            ),
        }
    }

    /// The counts after a list of records, from nothing on.
    pub open spec fn after_records(records: Seq<Record>) -> ClientTelemetryAccumulator
        decreases records.len(),
    {
        if records.len() == 0 {
            ClientTelemetryAccumulator::zero()
        } else {
            Self::after_records(records.drop_last()).with_record(records.last())
        }
    }
}

/// What the records of a list add up to.
pub struct Sums {
    pub unrecoverable_frames: nat,
    pub recovered_fragments: nat,
    pub recovered_frames: nat,
    pub presented_frames: nat,
    pub dropped_frames: nat,
    pub decode_queue_us: nat,
    pub render_queue_us: nat,
}

impl Sums {
    pub open spec fn of(records: Seq<Record>) -> Sums
        decreases records.len(),
    {
        if records.len() == 0 {
            Sums {
                unrecoverable_frames: 0,
                recovered_fragments: 0,
                recovered_frames: 0,
                presented_frames: 0,
                dropped_frames: 0,
                decode_queue_us: 0,
                render_queue_us: 0,
            }
        } else {
            let s = Self::of(records.drop_last());
            match records.last() {
                Record::Reassembly {
                    unrecoverable_frames,
                    recovered_fragments,
                    recovered_frame,
                } => Sums {
                    unrecoverable_frames: s.unrecoverable_frames + unrecoverable_frames as nat,
                    recovered_fragments: s.recovered_fragments + recovered_fragments as nat,
                    recovered_frames: s.recovered_frames + if recovered_frame {
                        1nat
                    } else {
                        0nat
                    },
                    ..s
                },
                Record::Render { decode_queue_us, render_queue_us, dropped_frames } => Sums {
                    presented_frames: s.presented_frames + 1,
                    dropped_frames: s.dropped_frames + dropped_frames as nat,
                    decode_queue_us: s.decode_queue_us + decode_queue_us as nat,
                    render_queue_us: s.render_queue_us + render_queue_us as nat,
                    ..s
                },
            }
        }
    }

    /// The counts can be reported in 32 bits.
    pub open spec fn fit(self) -> bool {
        &&& self.unrecoverable_frames <= u32::MAX
        &&& self.recovered_fragments <= u32::MAX
        &&& self.recovered_frames <= u32::MAX
        &&& self.presented_frames <= u32::MAX
        &&& self.dropped_frames <= u32::MAX
    }
}

/// The counts after a list of records are its sums.
proof fn lemma_after_records(records: Seq<Record>)
    requires
        Sums::of(records).fit(),
    ensures
        ({
            let a = ClientTelemetryAccumulator::after_records(records);
            let s = Sums::of(records);
            &&& a.unrecoverable_frames == s.unrecoverable_frames
            &&& a.recovered_fragments == s.recovered_fragments
            &&& a.recovered_frames == s.recovered_frames
            &&& a.presented_frames == s.presented_frames
            &&& a.render_dropped_frames == s.dropped_frames
            &&& a.total_decode_queue_us == s.decode_queue_us
            &&& a.total_render_queue_us == s.render_queue_us
            &&& s.decode_queue_us <= s.presented_frames * u32::MAX
            &&& s.render_queue_us <= s.presented_frames * u32::MAX
        }),
    decreases records.len(),
{
    if records.len() > 0 {
        lemma_after_records(records.drop_last());
        let n = Sums::of(records).presented_frames as int;
        let before = Sums::of(records.drop_last()).presented_frames as int;
        assert(n == before + 1 ==> n * 0xffff_ffff == before * 0xffff_ffff + 0xffff_ffff)
            by (nonlinear_arith);
        assert(n <= u32::MAX ==> n * 0xffff_ffff <= u64::MAX) by (nonlinear_arith);
    }
}

/// A report gives the sums and the averages of all that was recorded since the last
/// one, in whatever order it was.
pub proof fn drain_reports_every_record(records: Seq<Record>)
    requires
        Sums::of(records).fit(),
    ensures
        ({
            let t = ClientTelemetryAccumulator::after_records(records).report();
            let s = Sums::of(records);
            &&& t.unrecoverable_frames == s.unrecoverable_frames
            &&& t.recovered_fragments == s.recovered_fragments
            &&& t.recovered_frames == s.recovered_frames
            &&& t.presented_frames == s.presented_frames
            &&& t.render_dropped_frames == s.dropped_frames
            &&& t.avg_decode_queue_us == if s.presented_frames == 0 {
                0
            } else {
                s.decode_queue_us / s.presented_frames
            }
            &&& t.avg_render_queue_us == if s.presented_frames == 0 {
                0
            } else {
                s.render_queue_us / s.presented_frames
            }
        }),
{
    lemma_after_records(records);
    let s = Sums::of(records);
    if s.presented_frames > 0 {
        lemma_quotient(s.decode_queue_us, s.presented_frames);
        lemma_quotient(s.render_queue_us, s.presented_frames);
    }
}

/// The average of spans of 32 bits fits 32 bits.
proof fn lemma_quotient(total: nat, count: nat)
    requires
        count > 0,
        total <= count * u32::MAX,
    ensures
        total / count <= u32::MAX,
        (total / count) % 0x1_0000_0000 == total / count,
{
    assert(total / count <= 0xffff_ffff) by (nonlinear_arith)
        requires
            count > 0,
            total <= count * 0xffff_ffff,
    ;
}

/// Two reports in a row: the second has nothing to tell.
pub proof fn second_drain_is_empty()
    ensures
        ClientTelemetryAccumulator::zero().report() == (ClientTelemetry {
            unrecoverable_frames: 0,
            recovered_frames: 0,
            recovered_fragments: 0,
            presented_frames: 0,
            render_dropped_frames: 0,
            avg_decode_queue_us: 0,
            avg_render_queue_us: 0,
        }),
{
}

/// An average does not exceed the greatest value: where `count` spans of at most
/// `bound` each add up to `total`, their average is at most `bound`.
pub proof fn average_is_bounded(total: u64, count: u32, bound: u32)
    requires
        total <= count * bound,
    ensures
        average_of(total, count) <= bound,
{
    if count > 0 {
        assert(total / count as u64 <= bound) by (nonlinear_arith)
            requires
                count > 0,
                total <= count * bound,
        ;
    }
}

/// An average is the quotient, rounded down: as many times as there are values it makes
/// up no more than the total, and one more would make up more.
pub proof fn averages_are_quotients(total: u64, count: u32)
    requires
        count > 0,
        total < count * 0x1_0000_0000,
    ensures
        average_of(total, count) * count <= total < (average_of(total, count) + 1) * count,
        average_of(total, 0) == 0,
{
    let q = total / count as u64;
    let c = count as u64;
    assert(q * c <= total < (q + 1) * c && q < 0x1_0000_0000) by (nonlinear_arith)
        requires
            c > 0,
            q == total / c,
            total < c * 0x1_0000_0000,
    ;
    assert(q % 0x1_0000_0000 == q);
}

} // verus!
