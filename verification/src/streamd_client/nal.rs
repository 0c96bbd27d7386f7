//! H.264 elementary streams: NAL units behind Annex B start codes, parameter
//! sets, and the length-prefixed form that the hardware decoder takes.

use super::video_rx::DecodedFrame;
use vstd::prelude::*;
use vstd::slice::slice_subrange;

verus! {

// ---------------------------------------------------------------------------
// Start codes
// ---------------------------------------------------------------------------

/// A start code of four bytes lies at `p`.
pub open spec fn code4_at(s: Seq<u8>, p: int) -> bool {
    0 <= p && p + 3 < s.len() && s[p] == 0 && s[p + 1] == 0 && s[p + 2] == 0 && s[p + 3] == 1
}

/// A start code of three bytes lies at `p`.
pub open spec fn code3_at(s: Seq<u8>, p: int) -> bool {
    0 <= p && p + 2 < s.len() && s[p] == 0 && s[p + 1] == 0 && s[p + 2] == 1
}

pub open spec fn code_at(s: Seq<u8>, p: int) -> bool {
    code3_at(s, p) || code4_at(s, p)
}

/// The position behind the start code at `p`.
pub open spec fn behind_code(s: Seq<u8>, p: int) -> int {
    if code4_at(s, p) {
        p + 4
    } else {
        p + 3
    }
}

/// The first start code at or behind `from`.
pub open spec fn next_code(s: Seq<u8>, from: int) -> Option<int>
    decreases s.len() - from,
{
    if from + 2 >= s.len() {
        None
    } else if code_at(s, from) {
        Some(from)
    } else {
        next_code(s, from + 1)
    }
}

/// The NAL units from `start` on, the first of which begins there: each reaches
/// up to the next start code, the last to the end. Empty ones do not count.
pub open spec fn units_from(s: Seq<u8>, start: int) -> Seq<Seq<u8>>
    decreases s.len() - start,
    when 0 <= start <= s.len()
{
    match next_code(s, start) {
        None => if start < s.len() {
            seq![s.subrange(start, s.len() as int)]
        } else {
            Seq::empty()
        },
        Some(p) => if start <= p && p < s.len() && behind_code(s, p) <= s.len() {
            (if start < p {
                seq![s.subrange(start, p)]
            } else {
                Seq::empty()
            }) + units_from(s, behind_code(s, p))
        } else {
            Seq::empty()
        },
    }
}

/// The NAL units of a stream: what lies behind its first start code.
pub open spec fn nal_units(s: Seq<u8>) -> Seq<Seq<u8>> {
    match next_code(s, 0) {
        None => Seq::empty(),
        Some(p) => units_from(s, behind_code(s, p)),
    }
}

/// A start code is found where one lies, and none lies before it.
pub proof fn lemma_next_code(s: Seq<u8>, from: int)
    requires
        0 <= from,
    ensures
        match next_code(s, from) {
            Some(p) => from <= p && code_at(s, p) && behind_code(s, p) <= s.len() && (forall|q: int|
                from <= q < p ==> !#[trigger] code_at(s, q)),
            None => forall|q: int| from <= q ==> !#[trigger] code_at(s, q),
        },
    decreases s.len() - from,
{
    if from + 2 < s.len() && !code_at(s, from) {
        lemma_next_code(s, from + 1);
    }
}

/// The bytes of a list of NAL units.
pub open spec fn unit_views(units: Seq<&[u8]>) -> Seq<Seq<u8>> {
    units.map_values(|u: &[u8]| u@)
}

/// Whether a start code of three and of four bytes lies at `p`.
fn codes_at(data: &[u8], p: usize) -> (r: (bool, bool))
    requires
        p + 2 < data@.len(),
    ensures
        r.0 == code3_at(data@, p as int),
        r.1 == code4_at(data@, p as int),
{
    let n: usize = data.len();
    let code3 = data[p] == 0 && data[p + 1] == 0 && data[p + 2] == 1;
    let code4 = n - p > 3 && data[p] == 0 && data[p + 1] == 0 && data[p + 2] == 0 && data[p + 3]
        == 1;
    (code3, code4)
}

/// Splits a stream into its NAL units.
pub fn split_nals(data: &[u8]) -> (nals: Vec<&[u8]>)
    ensures
        unit_views(nals@) == nal_units(data@),
{
    let n: usize = data.len();
    let mut nals: Vec<&[u8]> = Vec::new();
    let mut i: usize = 0;
    let mut nal_start: usize = 0;
    let mut in_nal = false;
    let ghost s = data@;
    assert(unit_views(nals@) =~= Seq::empty());
    while i < n && n - i > 2
        invariant
            n == s.len(),
            s == data@,
            nal_start <= i <= n,
            !in_nal ==> nals@.len() == 0 && next_code(s, 0) == next_code(s, i as int),
            in_nal ==> nal_units(s) == unit_views(nals@) + units_from(s, nal_start as int)
                && next_code(s, nal_start as int) == next_code(s, i as int),
        decreases n - i,
    {
        let (code3, code4) = codes_at(data, i);
        if code3 || code4 {
            let ghost before = unit_views(nals@);
            let ghost old_start = nal_start as int;
            let behind: usize = if code4 {
                i + 4
            } else {
                i + 3
            };
            assert(next_code(s, i as int) == Some(i as int));
            if in_nal && i > nal_start {
                let unit = slice_subrange(data, nal_start, i);
                nals.push(unit);
                assert(unit_views(nals@) =~= before.push(s.subrange(old_start, i as int)));
            }
            proof {
                if in_nal {
                    let head = if old_start < i {
                        seq![s.subrange(old_start, i as int)]
                    } else {
                        Seq::empty()
                    };
                    assert(units_from(s, old_start) == head + units_from(s, behind as int));
                    assert(before + (head + units_from(s, behind as int)) =~= unit_views(nals@)
                        + units_from(s, behind as int));
                } else {
                    assert(unit_views(nals@) + units_from(s, behind as int) =~= units_from(
                        s,
                        behind as int,
                    ));
                }
            }
            nal_start = behind;
            in_nal = true;
            i = behind;
        } else {
            i = i + 1;
        }
    }
    proof {
        assert(next_code(s, i as int) is None);
    }
    if in_nal && nal_start < n {
        let ghost before = unit_views(nals@);
        let unit = slice_subrange(data, nal_start, n);
        nals.push(unit);
        assert(unit_views(nals@) =~= before + seq![s.subrange(nal_start as int, n as int)]);
    }
    assert(unit_views(nals@) =~= nal_units(s));
    nals
}

/// No NAL unit is empty, and no start code lies inside one.
pub proof fn units_hold_no_start_code(s: Seq<u8>, k: int)
    requires
        0 <= k < nal_units(s).len(),
    ensures
        nal_units(s)[k].len() > 0,
        forall|p: int| !#[trigger] code3_at(nal_units(s)[k], p),
{
    lemma_next_code(s, 0);
    if let Some(p) = next_code(s, 0) {
        lemma_units_from(s, behind_code(s, p), k);
    }
}

proof fn lemma_units_from(s: Seq<u8>, start: int, k: int)
    requires
        0 <= start <= s.len(),
        0 <= k < units_from(s, start).len(),
    ensures
        units_from(s, start)[k].len() > 0,
        forall|p: int| !#[trigger] code3_at(units_from(s, start)[k], p),
    decreases s.len() - start,
{
    lemma_next_code(s, start);
    match next_code(s, start) {
        None => {
            let u = s.subrange(start, s.len() as int);
            assert forall|p: int| !#[trigger] code3_at(u, p) by {
                if code3_at(u, p) {
                    assert(code_at(s, start + p));
                }
            }
        },
        Some(q) => {
            let u = s.subrange(start, q);
            let rest = units_from(s, behind_code(s, q));
            if start < q {
                assert forall|p: int| !#[trigger] code3_at(u, p) by {
                    if code3_at(u, p) {
                        assert(code_at(s, start + p));
                    }
                }
                if k > 0 {
                    lemma_units_from(s, behind_code(s, q), k - 1);
                    assert(units_from(s, start)[k] == rest[k - 1]);
                }
            } else {
                lemma_units_from(s, behind_code(s, q), k);
                assert(units_from(s, start)[k] == rest[k]);
            }
        },
    }
}

/// A start code, of four bytes or of three.
pub open spec fn start_code(long: bool) -> Seq<u8> {
    if long {
        seq![0u8, 0u8, 0u8, 1u8]
    } else {
        seq![0u8, 0u8, 1u8]
    }
}

/// A stream that has each unit behind a start code, of four bytes where `long` says
/// so.
pub open spec fn annexb(units: Seq<Seq<u8>>, long: Seq<bool>) -> Seq<u8>
    decreases units.len(),
{
    if units.len() == 0 {
        Seq::empty()
    } else {
        start_code(long[0]) + units[0] + annexb(units.drop_first(), long.drop_first())
    }
}

/// Units that can be told apart in a stream: none is empty or holds a start code, and
/// none before a start code of three bytes ends with a zero, which would count as a
/// fourth.
pub open spec fn separable(units: Seq<Seq<u8>>, long: Seq<bool>) -> bool {
    &&& long.len() == units.len()
    &&& forall|k: int| 0 <= k < units.len() ==> (#[trigger] units[k]).len() > 0
    &&& forall|k: int, p: int| 0 <= k < units.len() ==> !#[trigger] code3_at(units[k], p)
    &&& forall|k: int|
        0 <= k && k + 1 < units.len() && (#[trigger] units[k]).last() == 0 ==> long[k + 1]
}

/// Splitting undoes joining, whichever start codes stand between the units.
pub proof fn split_undoes_annexb(units: Seq<Seq<u8>>, long: Seq<bool>)
    requires
        separable(units, long),
    ensures
        nal_units(annexb(units, long)) == units,
{
    let s = annexb(units, long);
    if units.len() > 0 {
        let code = start_code(long[0]);
        let rest = units[0] + annexb(units.drop_first(), long.drop_first());
        assert(s =~= code + rest);
        assert(units[0].len() > 0);
        assert(s[0] == code[0] && s[1] == code[1] && s[2] == code[2]);
        if long[0] {
            assert(s[3] == code[3]);
        }
        assert(code_at(s, 0));
        assert(s.skip(code.len() as int) =~= rest);
        lemma_units_of_annexb(s, code.len() as int, units, long);
    } else {
        assert(units =~= Seq::empty());
    }
}

/// Behind a start code, a stream that joins `units` splits into them.
proof fn lemma_units_of_annexb(s: Seq<u8>, start: int, units: Seq<Seq<u8>>, long: Seq<bool>)
    requires
        units.len() > 0,
        separable(units, long),
        0 <= start <= s.len(),
        s.skip(start) == units[0] + annexb(units.drop_first(), long.drop_first()),
    ensures
        units_from(s, start) == units,
    decreases units.len(),
{
    let u = units[0];
    let more = units.drop_first();
    let codes = long.drop_first();
    let t = s.skip(start);
    let end = start + u.len();
    assert(forall|x: int| 0 <= x < t.len() ==> t[x] == s[start + x]);
    assert forall|x: int| 0 <= x < u.len() implies #[trigger] u[x] == s[start + x] by {
        assert(t[x] == (u + annexb(more, codes))[x]);
    }
    lemma_next_code(s, start);
    if more.len() == 0 {
        assert(t =~= u);
        assert forall|q: int| start <= q implies !#[trigger] code_at(s, q) by {
            if code_at(s, q) {
                if code3_at(s, q) {
                    assert(code3_at(u, q - start));
                } else {
                    assert(code3_at(u, q + 1 - start));
                }
            }
        }
        assert(next_code(s, start) is None);
        assert(s.subrange(start, s.len() as int) =~= u);
        assert(units =~= seq![u]);
    } else {
        let code = start_code(codes[0]);
        let c = code.len() as int;
        let rest = more[0] + annexb(more.drop_first(), codes.drop_first());
        assert(annexb(more, codes) =~= code + rest);
        let n = u.len() as int;
        assert(t =~= u + (code + rest));
        assert(s.len() == start + t.len());
        assert(more[0] == units[1]);
        assert(more[0].len() > 0);
        assert(codes[0] == long[1]);
        assert(s[end] == t[n] && s[end + 1] == t[n + 1] && s[end + 2] == t[n + 2]);
        assert(t[n] == code[0] && t[n + 1] == code[1] && t[n + 2] == code[2]);
        if codes[0] {
            assert(s[end + 3] == t[n + 3] && t[n + 3] == code[3]);
        } else {
            assert(units[0].last() != 0);
            assert(s[end - 1] == u[n - 1]);
        }
        assert forall|q: int| start <= q < end implies !#[trigger] code_at(s, q) by {
            if code3_at(s, q) {
                if q + 2 < end {
                    assert(code3_at(u, q - start));
                } else {
                    assert(s[q + 2] == 0);
                }
            }
            if code4_at(s, q) {
                if q + 3 < end {
                    assert(code3_at(u, q + 1 - start));
                } else if codes[0] || q + 3 < end + 2 {
                    assert(s[q + 3] == 0);
                } else {
                    assert(q == end - 1);
                }
            }
        }
        assert(code_at(s, end));
        assert(behind_code(s, end) == end + c);
        assert(next_code(s, start) == Some(end));
        assert(s.subrange(start, end) =~= u);
        assert(s.skip(end + c) =~= t.skip(n + c));
        assert(t.skip(n + c) =~= rest);
        assert(separable(more, codes)) by {
            assert forall|k: int, p: int| 0 <= k < more.len() implies !#[trigger] code3_at(
                more[k],
                p,
            ) by {
                assert(more[k] == units[k + 1]);
                assert(!code3_at(units[k + 1], p));
            }
            assert forall|k: int| 0 <= k < more.len() implies (#[trigger] more[k]).len() > 0 by {
                assert(more[k] == units[k + 1]);
            }
            assert forall|k: int|
                0 <= k && k + 1 < more.len() && (#[trigger] more[k]).last()
                    == 0 implies codes[k + 1] by {
                assert(more[k] == units[k + 1]);
            }
        }
        lemma_units_of_annexb(s, end + c, more, codes);
        assert(seq![u] + more =~= units);
    }
}

// ---------------------------------------------------------------------------
// Parameter sets and samples
// ---------------------------------------------------------------------------

/// The type of a NAL unit, in the low five bits of its first byte.
pub open spec fn nal_type(unit: Seq<u8>) -> u8 {
    unit[0] & 0x1F
}

/// The last unit of a type among the first `n`.
pub open spec fn last_of_type(units: Seq<Seq<u8>>, n: nat, t: u8) -> Option<Seq<u8>>
    decreases n,
{
    if n == 0 {
        None
    } else if units[n - 1].len() > 0 && nal_type(units[n - 1]) == t {
        Some(units[n - 1])
    } else {
        last_of_type(units, (n - 1) as nat, t)
    }
}

/// The sequence and picture parameter sets of a stream: the last of each.
pub fn extract_sps_pps(data: &[u8]) -> (r: (Option<Vec<u8>>, Option<Vec<u8>>))
    ensures
        ({
            let units = nal_units(data@);
            &&& match r.0 {
                Some(sps) => last_of_type(units, units.len(), 7) == Some(sps@),
                None => last_of_type(units, units.len(), 7) is None,
            }
            &&& match r.1 {
                Some(pps) => last_of_type(units, units.len(), 8) == Some(pps@),
                None => last_of_type(units, units.len(), 8) is None,
            }
        }),
{
    let nals = split_nals(data);
    let ghost units = unit_views(nals@);
    let mut sps: Option<Vec<u8>> = None;
    let mut pps: Option<Vec<u8>> = None;
    let mut i: usize = 0;
    while i < nals.len()
        invariant
            i <= nals@.len(),
            units == unit_views(nals@),
            match sps {
                Some(v) => last_of_type(units, i as nat, 7) == Some(v@),
                None => last_of_type(units, i as nat, 7) is None,
            },
            match pps {
                Some(v) => last_of_type(units, i as nat, 8) == Some(v@),
                None => last_of_type(units, i as nat, 8) is None,
            },
        decreases nals@.len() - i,
    {
        let nal = nals[i];
        assert(units[i as int] == nal@);
        if nal.len() > 0 {
            let t: u8 = nal[0] & 0x1F;
            if t == 7 {
                sps = Some(crate::wire::slice_to_vec(nal));
            } else if t == 8 {
                pps = Some(crate::wire::slice_to_vec(nal));
            }
        }
        i = i + 1;
    }
    (sps, pps)
}

/// A 32-bit number, highest byte first.
pub open spec fn be32(n: nat) -> Seq<u8> {
    seq![
        (n / 0x100_0000 % 256) as u8,
        (n / 0x1_0000 % 256) as u8,
        (n / 0x100 % 256) as u8,
        (n % 256) as u8,
    ]
}

/// The first `n` units, each behind its length.
pub open spec fn avcc(units: Seq<Seq<u8>>, n: nat) -> Seq<u8>
    decreases n,
{
    if n == 0 {
        Seq::empty()
    } else {
        avcc(units, (n - 1) as nat) + (be32(units[n - 1].len()) + units[n - 1])
    }
}

/// Puts each NAL unit of a stream behind its length in place of a start code.
pub fn annexb_to_avcc(data: &[u8]) -> (out: Vec<u8>)
    ensures
        out@ == avcc(nal_units(data@), nal_units(data@).len()),
{
    let nals = split_nals(data);
    let ghost units = unit_views(nals@);
    let mut out: Vec<u8> = Vec::new();
    let mut i: usize = 0;
    while i < nals.len()
        invariant
            i <= nals@.len(),
            units == unit_views(nals@),
            out@ == avcc(units, i as nat),
        decreases nals@.len() - i,
    {
        let nal = nals[i];
        assert(units[i as int] == nal@);
        let len: usize = nal.len();
        let ghost before = out@;
        out.push((len / 0x100_0000 % 256) as u8);
        out.push((len / 0x1_0000 % 256) as u8);
        out.push((len / 0x100 % 256) as u8);
        out.push((len % 256) as u8);
        out.extend_from_slice(nal);
        assert(out@ =~= before + (be32(len as nat) + nal@));
        i = i + 1;
    }
    out
}

/// The number that four bytes stand for, highest byte first.
pub open spec fn be32_value(s: Seq<u8>) -> nat {
    s[0] as nat * 0x100_0000 + s[1] as nat * 0x1_0000 + s[2] as nat * 0x100 + s[3] as nat
}

/// The units of a sample, each of which stands behind its length.
pub open spec fn sample_units(s: Seq<u8>) -> Option<Seq<Seq<u8>>>
    decreases s.len(),
{
    if s.len() == 0 {
        Some(Seq::empty())
    } else if s.len() < 4 || be32_value(s) > s.len() - 4 {
        None
    } else {
        let n = be32_value(s) as int;
        match sample_units(s.skip(4 + n)) {
            Some(rest) => Some(seq![s.subrange(4, 4 + n)] + rest),
            None => None,
        }
    }
}

/// Nothing is lost on the way to the decoder: a sample made of units of less than
/// 4 GiB gives exactly those units back.
pub proof fn samples_hold_their_units(units: Seq<Seq<u8>>)
    requires
        forall|i: int| 0 <= i < units.len() ==> (#[trigger] units[i]).len() <= u32::MAX,
    ensures
        sample_units(avcc(units, units.len())) == Some(units),
    decreases units.len(),
{
    if units.len() > 0 {
        let rest = units.skip(1);
        assert forall|i: int| 0 <= i < rest.len() implies (#[trigger] rest[i]).len()
            <= u32::MAX by {
            assert(rest[i] == units[i + 1]);
        }
        samples_hold_their_units(rest);
        lemma_avcc_front(units, units.len());
        let n = units[0].len();
        let s = avcc(units, units.len());
        let head = be32(n) + units[0];
        assert(s =~= head + avcc(rest, rest.len()));
        lemma_be32(n);
        assert(s[0] == be32(n)[0] && s[1] == be32(n)[1] && s[2] == be32(n)[2] && s[3] == be32(n)[3]);
        assert(be32_value(s) == be32_value(be32(n)));
        assert(s.subrange(4, 4 + n as int) =~= units[0]);
        assert(s.skip(4 + n as int) =~= avcc(rest, rest.len()));
        assert(seq![units[0]] + rest =~= units);
    } else {
        assert(units =~= Seq::empty());
    }
}

proof fn lemma_be32(n: nat)
    requires
        n <= u32::MAX,
    ensures
        be32(n).len() == 4,
        be32_value(be32(n)) == n,
{
    let (a, b, c, d) = (n / 0x100_0000, n / 0x1_0000 % 256, n / 0x100 % 256, n % 256);
    assert(a % 256 == a);
    assert(a * 0x100_0000 + b * 0x1_0000 + c * 0x100 + d == n);
}

proof fn lemma_avcc_front(units: Seq<Seq<u8>>, n: nat)
    requires
        0 < n <= units.len(),
    ensures
        avcc(units, n) == (be32(units[0].len()) + units[0]) + avcc(units.skip(1), (n - 1) as nat),
    decreases n,
{
    let head = be32(units[0].len()) + units[0];
    if n == 1 {
        assert(avcc(units, 0) =~= Seq::empty());
        assert(avcc(units.skip(1), 0) =~= Seq::empty());
        assert(avcc(units, 1) =~= head + avcc(units.skip(1), 0));
    } else {
        lemma_avcc_front(units, (n - 1) as nat);
        let last = be32(units[n - 1].len()) + units[n - 1];
        assert(units.skip(1)[n - 2] == units[n - 1]);
        assert((head + avcc(units.skip(1), (n - 2) as nat)) + last =~= head + (avcc(
            units.skip(1),
            (n - 2) as nat,
        ) + last));
    }
}

// ---------------------------------------------------------------------------
// Decoding
// ---------------------------------------------------------------------------

/// What the decode thread does with a frame.
#[derive(Debug)]
pub struct DecodePlan {
    /// Parameter sets with which to open a new decoder session first.
    pub new_session: Option<(Vec<u8>, Vec<u8>)>,
    /// The sample to decode.
    pub sample: Vec<u8>,
}

/// Plans the decoding of a frame: a keyframe that carries both parameter sets
/// opens a new decoder session.
pub fn plan_decode(frame: &DecodedFrame) -> (plan: DecodePlan)
    ensures
        ({
            let units = nal_units(frame.data@);
            let sps = last_of_type(units, units.len(), 7);
            let pps = last_of_type(units, units.len(), 8);
            &&& plan.sample@ == avcc(units, units.len())
            &&& plan.new_session is Some <==> frame.is_keyframe && sps is Some && pps is Some
            &&& plan.new_session matches Some((s, p)) ==> Some(s@) == sps && Some(p@) == pps
        }),
{
    let sample = annexb_to_avcc(frame.data.as_slice());
    let new_session = if frame.is_keyframe {
        match extract_sps_pps(frame.data.as_slice()) {
            (Some(sps), Some(pps)) => Some((sps, pps)),
            _ => None,
        }
    } else {
        None
    };
    DecodePlan { new_session, sample }
}

/// Whether the decoder has a session to decode in.
#[derive(Clone, Copy, Debug, PartialEq, Eq, Structural)]
pub struct DecoderState {
    pub session_open: bool,
}

impl DecoderState {
    pub fn new() -> (r: DecoderState)
        ensures
            !r.session_open,
    {
        DecoderState { session_open: false }
    }

    /// The session was closed and set up anew, or could not be.
    pub fn session_recreated(&mut self, created: bool)
        ensures
            final(self).session_open == created,
    {
        self.session_open = created;
    }

    /// Whether the sample is handed to the decoder: only to an open session,
    /// and only if there is anything to decode.
    pub fn submits(&self, plan: &DecodePlan) -> (r: bool)
        ensures
            r == (self.session_open && plan.sample@.len() > 0),
    {
        self.session_open && plan.sample.len() > 0
    }
}

/// How long frames wait before they are handed to the decoder, over a window
/// of about one second.
#[derive(Clone, Copy, Debug, PartialEq, Eq, Structural)]
pub struct DecodeSubmitStats {
    pub submitted_frames: u32,
    pub total_queue_us: u64,
}

impl DecodeSubmitStats {
    pub fn new() -> (r: DecodeSubmitStats)
        ensures
            r == (DecodeSubmitStats { submitted_frames: 0, total_queue_us: 0 }),
    {
        DecodeSubmitStats { submitted_frames: 0, total_queue_us: 0 }
    }

    /// Counts a frame that waited from `received_at_us` to `submitted_at_us`.
    /// Of the wait the low 32 bits count; none is counted for a frame from the
    /// future. The counts stop at their limits.
    pub fn record_submit(&mut self, received_at_us: u64, submitted_at_us: u64)
        ensures
            final(self).submitted_frames == if old(self).submitted_frames < u32::MAX {
                (old(self).submitted_frames + 1) as u32
            } else {
                u32::MAX
            },
            ({
                let wait = if submitted_at_us > received_at_us {
                    (submitted_at_us - received_at_us) % 0x1_0000_0000
                } else {
                    0
                };
                final(self).total_queue_us == if old(self).total_queue_us + wait <= u64::MAX {
                    (old(self).total_queue_us + wait) as u64
                } else {
                    u64::MAX
                }
            }),
    {
        let wait: u64 = submitted_at_us.saturating_sub(received_at_us) % 0x1_0000_0000;
        self.submitted_frames = self.submitted_frames.saturating_add(1);
        self.total_queue_us = self.total_queue_us.saturating_add(wait);
    }

    /// Once a second has passed: the number of frames and their average wait,
    /// and a new window.
    pub fn take_window(&mut self, elapsed_us: u64) -> (r: Option<(u32, u32)>)
        ensures
            elapsed_us < 1_000_000 ==> r is None && *final(self) == *old(self),
            elapsed_us >= 1_000_000 ==> r == Some(
                (
                    old(self).submitted_frames,
                    crate::yang::telemetry::average_of(
                        old(self).total_queue_us,
                        old(self).submitted_frames,
                    ),
                ),
            ) && *final(self) == (DecodeSubmitStats { submitted_frames: 0, total_queue_us: 0 }),
    {
        if elapsed_us < 1_000_000 {
            return None;
        }
        let average = crate::yang::telemetry::average(self.total_queue_us, self.submitted_frames);
        let window = (self.submitted_frames, average);
        *self = DecodeSubmitStats::new();
        Some(window)
    }
}

/// The type of a unit is the rest of its first byte by 32.
pub proof fn types_are_five_bits(unit: Seq<u8>)
    ensures
        nal_type(unit) == unit[0] % 32,
{
    let b = unit[0];
    assert(b & 0x1F == b % 32) by (bit_vector);
}

/// Of several units of a type the last counts: one is found where there is any, it is of
/// that type, and none behind it is.
pub proof fn the_last_of_a_type_counts(units: Seq<Seq<u8>>, n: nat, t: u8)
    requires
        n <= units.len(),
    ensures
        match last_of_type(units, n, t) {
            Some(unit) => exists|i: int|
                0 <= i < n && #[trigger] units[i] == unit && unit.len() > 0 && unit[0] % 32 == t
                    && forall|j: int|
                    i < j < n && (#[trigger] units[j]).len() > 0 ==> units[j][0] % 32 != t,
            None => forall|j: int|
                0 <= j < n && (#[trigger] units[j]).len() > 0 ==> units[j][0] % 32 != t,
        },
    decreases n,
{
    if n > 0 {
        types_are_five_bits(units[n - 1]);
        if units[n - 1].len() > 0 && nal_type(units[n - 1]) == t {
            assert(units[n - 1] == last_of_type(units, n, t)->0);
        } else {
            the_last_of_a_type_counts(units, (n - 1) as nat, t);
        }
    }
}

} // verus!
