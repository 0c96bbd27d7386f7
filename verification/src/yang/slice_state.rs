//! Reassembly of one slice of a video frame, with XOR parity recovery.
//!
//! A slice is cut into data fragments of one size, of which only the last may
//! be shorter. Every group of `VIDEO_FEC_DATA_SHARDS` consecutive fragments is
//! protected by one parity fragment: the XOR of the group's fragments, shorter
//! ones padded with zeros.

use crate::yin_yang_proto::packets::VIDEO_FEC_DATA_SHARDS;
use vstd::prelude::*;

verus! {

/// The bytes of an optional fragment.
pub open spec fn frag_view(frag: Option<Vec<u8>>) -> Option<Seq<u8>> {
    match frag {
        Some(bytes) => Some(bytes@),
        None => None,
    }
}

/// The fragments of a slice that have arrived or were recovered.
pub open spec fn frag_views(frags: Seq<Option<Vec<u8>>>) -> Seq<Option<Seq<u8>>> {
    frags.map_values(|f: Option<Vec<u8>>| frag_view(f))
}

/// What a receiver knows of a slice.
#[verifier::ext_equal]
pub struct SliceView {
    pub data: Seq<Option<Seq<u8>>>,
    pub parity: Seq<Option<Seq<u8>>>,
    pub frag_total: u16,
    pub slice_len: u32,
    pub frag_payload_size: u16,
    pub recovered_fragments: u16,
}

/// Byte `k` of a fragment, or zero behind its end or where it is missing.
pub open spec fn padded_byte(frag: Option<Seq<u8>>, k: int) -> u8 {
    match frag {
        Some(bytes) => if 0 <= k < bytes.len() {
            bytes[k]
        } else {
            0
        },
        None => 0,
    }
}

/// The XOR of byte `k` of the fragments `lo..hi`, leaving out fragment `skip`.
pub open spec fn xor_except(frags: Seq<Option<Seq<u8>>>, lo: int, hi: int, skip: int, k: int) -> u8
    decreases hi - lo,
{
    if hi <= lo {
        0
    } else {
        xor_except(frags, lo, hi - 1, skip, k) ^ (if hi - 1 == skip {
            0
        } else {
            padded_byte(frags[hi - 1], k)
        })
    }
}

/// The first `n` fragments that are there, one behind the other.
pub open spec fn joined(frags: Seq<Option<Seq<u8>>>, n: nat) -> Seq<u8>
    decreases n,
{
    if n == 0 {
        Seq::empty()
    } else {
        joined(frags, (n - 1) as nat) + (match frags[n - 1] {
            Some(bytes) => bytes,
            None => Seq::empty(),
        })
    }
}

impl SliceView {
    /// A slice of which nothing has arrived.
    pub open spec fn fresh(frag_total: u16, slice_len: u32, frag_payload_size: u16) -> SliceView {
        SliceView {
            data: Seq::new(frag_total as nat, |i: int| None),
            parity: Seq::new((frag_total as nat + 3) / 4, |i: int| None),
            frag_total,
            slice_len,
            frag_payload_size,
            recovered_fragments: 0,
        }
    }

    /// The packet's description of the slice agrees with the first one seen.
    pub open spec fn agrees(
        self,
        frag_total: u16,
        slice_len: u32,
        frag_payload_size: u16,
    ) -> bool {
        self.frag_total == frag_total && self.slice_len == slice_len && self.frag_payload_size
            == frag_payload_size
    }

    /// The length that data fragment `i` must have: the fragment size, but for
    /// the last one, which holds what the others leave of the slice.
    pub open spec fn payload_len(self, i: int) -> Option<nat> {
        if i < 0 || i >= self.data.len() {
            None
        } else if i + 1 < self.data.len() {
            Some(self.frag_payload_size as nat)
        } else {
            let preceding = self.frag_payload_size * (self.data.len() - 1);
            if self.slice_len < preceding {
                None
            } else {
                Some((self.slice_len - preceding) as nat)
            }
        }
    }

    /// The first fragment of a group.
    pub open spec fn group_start(g: int) -> int {
        g * 4
    }

    /// The fragment behind the last one of a group.
    pub open spec fn group_end(self, g: int) -> int {
        if g * 4 + 4 <= self.data.len() {
            g * 4 + 4
        } else {
            self.data.len() as int
        }
    }

    /// The longest length among the fragments `lo..hi`, if each has one.
    pub open spec fn longest(self, lo: int, hi: int) -> Option<nat>
        decreases hi - lo,
    {
        if lo + 1 >= hi {
            self.payload_len(lo)
        } else {
            match (self.payload_len(lo), self.longest(lo + 1, hi)) {
                (Some(a), Some(b)) => Some(
                    if a >= b {
                        a
                    } else {
                        b
                    },
                ),
                _ => None,
            }
        }
    }

    /// The length of a group's parity fragment: that of its longest fragment.
    pub open spec fn group_payload_len(self, g: int) -> Option<nat> {
        if g < 0 || Self::group_start(g) >= self.data.len() {
            None
        } else {
            self.longest(Self::group_start(g), self.group_end(g))
        }
    }

    /// The first missing fragment among `lo..hi`.
    pub open spec fn first_gap(self, lo: int, hi: int) -> Option<int>
        decreases hi - lo,
    {
        if lo >= hi {
            None
        } else if self.data[lo] is None {
            Some(lo)
        } else {
            self.first_gap(lo + 1, hi)
        }
    }

    /// The only missing fragment among `lo..hi`, if exactly one is missing.
    pub open spec fn sole_gap(self, lo: int, hi: int) -> Option<int> {
        match self.first_gap(lo, hi) {
            Some(m) => if self.first_gap(m + 1, hi) is None {
                Some(m)
            } else {
                None
            },
            None => None,
        }
    }

    /// Stores a data fragment, unless one is already there.
    pub open spec fn with_data(self, i: int, payload: Seq<u8>) -> SliceView {
        if 0 <= i < self.data.len() && self.data[i] is None {
            SliceView { data: self.data.update(i, Some(payload)), ..self }
        } else {
            self
        }
    }

    /// Stores a parity fragment, unless one is already there.
    pub open spec fn with_parity(self, g: int, payload: Seq<u8>) -> SliceView {
        if 0 <= g < self.parity.len() && self.parity[g] is None {
            SliceView { parity: self.parity.update(g, Some(payload)), ..self }
        } else {
            self
        }
    }

    /// The missing fragment `m` of a group, rebuilt from the group's parity
    /// fragment and its other fragments.
    pub open spec fn rebuilt(self, g: int, m: int, len: nat) -> Seq<u8> {
        let parity = self.parity[g]->0;
        Seq::new(
            len,
            |k: int|
                parity[k] ^ xor_except(self.data, Self::group_start(g), self.group_end(g), m, k),
        )
    }

    /// The slice after recovery inside a group, or `None` where nothing can be
    /// recovered: the parity fragment must be there with the length of the
    /// group, and exactly one fragment of the group must be missing.
    pub open spec fn recovered(self, g: int) -> Option<SliceView> {
        if g < 0 || g >= self.parity.len() || self.parity[g] is None {
            None
        } else if self.group_payload_len(g) != Some(self.parity[g]->0.len()) {
            None
        } else {
            match self.sole_gap(Self::group_start(g), self.group_end(g)) {
                None => None,
                Some(m) => match self.payload_len(m) {
                    None => None,
                    Some(len) => Some(
                        SliceView {
                            data: self.data.update(m, Some(self.rebuilt(g, m, len))),
                            recovered_fragments: if self.recovered_fragments < u16::MAX {
                                (self.recovered_fragments + 1) as u16
                            } else {
                                u16::MAX
                            },
                            ..self
                        },
                    ),
                },
            }
        }
    }

    /// The slice after recovery inside a group, changed or not.
    pub open spec fn after_recovery(self, g: int) -> SliceView {
        match self.recovered(g) {
            Some(s) => s,
            None => self,
        }
    }

    /// Every data fragment is there.
    pub open spec fn complete(self) -> bool {
        forall|i: int| 0 <= i < self.data.len() ==> (#[trigger] self.data[i]) is Some
    }

    /// The fragments that are there, one behind the other.
    pub open spec fn assembled(self) -> Seq<u8> {
        joined(self.data, self.data.len())
    }
}

/// A gap is where a fragment is missing, and nothing before it is missing.
pub proof fn lemma_first_gap(s: SliceView, lo: int, hi: int)
    ensures
        match s.first_gap(lo, hi) {
            Some(m) => lo <= m < hi && s.data[m] is None && (forall|i: int|
                lo <= i < m ==> (#[trigger] s.data[i]) is Some),
            None => forall|i: int| lo <= i < hi ==> (#[trigger] s.data[i]) is Some,
        },
    decreases hi - lo,
{
    if lo < hi && s.data[lo] is Some {
        lemma_first_gap(s, lo + 1, hi);
    }
}

/// No fragment of a group is longer than the longest.
pub proof fn lemma_longest_bounds(s: SliceView, lo: int, hi: int, i: int)
    requires
        lo <= i < hi,
        s.longest(lo, hi) is Some,
    ensures
        s.payload_len(i) is Some,
        s.payload_len(i)->0 <= s.longest(lo, hi)->0,
    decreases hi - lo,
{
    if lo + 1 < hi && i > lo {
        lemma_longest_bounds(s, lo + 1, hi, i);
    }
}

#[derive(Debug)]
pub struct SliceState {
    data_frags: Vec<Option<Vec<u8>>>,
    parity_frags: Vec<Option<Vec<u8>>>,
    frag_total: u16,
    slice_len: u32,
    frag_payload_size: u16,
    recovered_fragments: u16,
}

impl View for SliceState {
    type V = SliceView;

    closed spec fn view(&self) -> SliceView {
        SliceView {
            data: frag_views(self.data_frags@),
            parity: frag_views(self.parity_frags@),
            frag_total: self.frag_total,
            slice_len: self.slice_len,
            frag_payload_size: self.frag_payload_size,
            recovered_fragments: self.recovered_fragments,
        }
    }
}

/// A list of `n` empty slots.
fn empty_slots(n: usize) -> (v: Vec<Option<Vec<u8>>>)
    ensures
        frag_views(v@) == Seq::new(n as nat, |i: int| None::<Seq<u8>>),
{
    let mut v: Vec<Option<Vec<u8>>> = Vec::new();
    let mut i: usize = 0;
    while i < n
        invariant
            i <= n,
            v@.len() == i,
            forall|j: int| 0 <= j < i ==> (#[trigger] v@[j]) is None,
        decreases n - i,
    {
        v.push(None);
        i = i + 1;
    }
    assert(frag_views(v@) =~= Seq::new(n as nat, |i: int| None::<Seq<u8>>));
    v
}

impl SliceState {
    /// `None` for a slice without data fragments.
    pub fn new(frag_total: u16, slice_len: u32, frag_payload_size: u16) -> (r: Option<SliceState>)
        ensures
            frag_total == 0 ==> r is None,
            frag_total > 0 ==> (r matches Some(s) && s@ == SliceView::fresh(
                frag_total,
                slice_len,
                frag_payload_size,
            )),
    {
        if frag_total == 0 {
            return None;
        }
        let group_count: usize = (frag_total as usize + VIDEO_FEC_DATA_SHARDS - 1)
            / VIDEO_FEC_DATA_SHARDS;
        Some(
            SliceState {
                data_frags: empty_slots(frag_total as usize),
                parity_frags: empty_slots(group_count),
                frag_total,
                slice_len,
                frag_payload_size,
                recovered_fragments: 0,
            },
        )
    }

    pub fn matches_metadata(
        &self,
        frag_total: u16,
        slice_len: u32,
        frag_payload_size: u16,
    ) -> (r: bool)
        ensures
            r == self@.agrees(frag_total, slice_len, frag_payload_size),
    {
        self.frag_total == frag_total && self.slice_len == slice_len && self.frag_payload_size
            == frag_payload_size
    }

    /// Stores a data fragment; `false` if its place is taken or does not exist.
    pub fn insert_data(&mut self, frag_idx: u16, payload: Vec<u8>) -> (stored: bool)
        ensures
            stored == (frag_idx < old(self)@.data.len() && old(self)@.data[frag_idx as int] is None),
            final(self)@ == old(self)@.with_data(frag_idx as int, payload@),
    {
        let i: usize = frag_idx as usize;
        if i < self.data_frags.len() && self.data_frags[i].is_none() {
            assert(frag_views(self.data_frags@)[i as int] == frag_view(self.data_frags@[i as int]));
            self.data_frags.set(i, Some(payload));
            assert(self@ =~= old(self)@.with_data(frag_idx as int, payload@));
            return true;
        }
        proof {
            if i < self.data_frags@.len() {
                assert(frag_views(self.data_frags@)[i as int] == frag_view(
                    self.data_frags@[i as int],
                ));
            }
        }
        false
    }

    /// Stores a parity fragment; `false` if its place is taken or does not exist.
    pub fn insert_parity(&mut self, group_idx: u16, payload: Vec<u8>) -> (stored: bool)
        ensures
            stored == (group_idx < old(self)@.parity.len() && old(self)@.parity[group_idx as int]
                is None),
            final(self)@ == old(self)@.with_parity(group_idx as int, payload@),
    {
        let i: usize = group_idx as usize;
        if i < self.parity_frags.len() && self.parity_frags[i].is_none() {
            assert(frag_views(self.parity_frags@)[i as int] == frag_view(
                self.parity_frags@[i as int],
            ));
            self.parity_frags.set(i, Some(payload));
            assert(self@ =~= old(self)@.with_parity(group_idx as int, payload@));
            return true;
        }
        proof {
            if i < self.parity_frags@.len() {
                assert(frag_views(self.parity_frags@)[i as int] == frag_view(
                    self.parity_frags@[i as int],
                ));
            }
        }
        false
    }

    pub fn is_complete(&self) -> (r: bool)
        ensures
            r == self@.complete(),
    {
        let mut i: usize = 0;
        while i < self.data_frags.len()
            invariant
                i <= self.data_frags@.len(),
                forall|j: int| 0 <= j < i ==> (#[trigger] self@.data[j]) is Some,
            decreases self.data_frags@.len() - i,
        {
            assert(self@.data[i as int] == frag_view(self.data_frags@[i as int]));
            if self.data_frags[i].is_none() {
                return false;
            }
            i = i + 1;
        }
        true
    }

    /// The bytes of the slice, as far as they are there.
    pub fn assemble(&self) -> (out: Vec<u8>)
        ensures
            out@ == self@.assembled(),
    {
        let mut out: Vec<u8> = Vec::new();
        let mut i: usize = 0;
        while i < self.data_frags.len()
            invariant
                i <= self.data_frags@.len(),
                out@ == joined(self@.data, i as nat),
            decreases self.data_frags@.len() - i,
        {
            assert(self@.data[i as int] == frag_view(self.data_frags@[i as int]));
            match &self.data_frags[i] {
                Some(frag) => {
                    out.extend_from_slice(frag.as_slice());
                },
                None => {},
            }
            i = i + 1;
            assert(out@ =~= joined(self@.data, i as nat));
        }
        out
    }

    /// Whether any fragment of the slice was recovered.
    pub fn was_repaired(&self) -> (r: bool)
        ensures
            r == (self@.recovered_fragments > 0),
    {
        self.recovered_fragments > 0
    }

    pub fn expected_payload_len(&self, frag_idx: usize) -> (r: Option<usize>)
        ensures
            match self@.payload_len(frag_idx as int) {
                Some(n) => r == Some(n as usize) && n <= usize::MAX,
                None => r is None,
            },
    {
        let count: usize = self.data_frags.len();
        if frag_idx >= count {
            return None;
        }
        let full: usize = self.frag_payload_size as usize;
        if frag_idx + 1 < count {
            return Some(full);
        }
        let preceding: usize = match full.checked_mul(count - 1) {
            Some(p) => p,
            None => {
                return None;
            },
        };
        let slice_len: usize = self.slice_len as usize;
        if slice_len < preceding {
            return None;
        }
        Some(slice_len - preceding)
    }

    /// The fragments `(first, behind_last)` of a group.
    pub fn group_range(&self, group_idx: usize) -> (r: Option<(usize, usize)>)
        ensures
            match r {
                Some((lo, hi)) => lo == SliceView::group_start(group_idx as int) && hi
                    == self@.group_end(group_idx as int) && lo < hi <= self@.data.len(),
                None => SliceView::group_start(group_idx as int) >= self@.data.len(),
            },
    {
        let count: usize = self.data_frags.len();
        let start: usize = match group_idx.checked_mul(VIDEO_FEC_DATA_SHARDS) {
            Some(s) => s,
            None => {
                return None;
            },
        };
        if start >= count {
            return None;
        }
        let end: usize = if count - start > VIDEO_FEC_DATA_SHARDS {
            start + VIDEO_FEC_DATA_SHARDS
        } else {
            count
        };
        Some((start, end))
    }

    pub fn expected_group_payload_len(&self, group_idx: usize) -> (r: Option<usize>)
        ensures
            match self@.group_payload_len(group_idx as int) {
                Some(n) => r == Some(n as usize) && n <= usize::MAX,
                None => r is None,
            },
    {
        let (lo, hi): (usize, usize) = match self.group_range(group_idx) {
            Some(x) => x,
            None => {
                return None;
            },
        };
        let mut i: usize = hi - 1;
        let mut longest: usize = match self.expected_payload_len(i) {
            Some(n) => n,
            None => {
                proof {
                    if self@.longest(lo as int, hi as int) is Some {
                        lemma_longest_bounds(self@, lo as int, hi as int, i as int);
                    }
                }
                return None;
            },
        };
        while i > lo
            invariant
                lo <= i < hi <= self@.data.len(),
                lo == SliceView::group_start(group_idx as int),
                hi == self@.group_end(group_idx as int),
                self@.longest(i as int, hi as int) == Some(longest as nat),
            decreases i,
        {
            i = i - 1;
            match self.expected_payload_len(i) {
                Some(n) => {
                    if n >= longest {
                        longest = n;
                    }
                },
                None => {
                    proof {
                        if self@.longest(lo as int, hi as int) is Some {
                            lemma_longest_bounds(self@, lo as int, hi as int, i as int);
                        }
                    }
                    return None;
                },
            }
        }
        Some(longest)
    }

    /// The first missing fragment among `from..to`.
    fn find_gap(&self, from: usize, to: usize) -> (r: Option<usize>)
        requires
            to <= self@.data.len(),
        ensures
            match self@.first_gap(from as int, to as int) {
                Some(m) => r == Some(m as usize) && from <= m < to,
                None => r is None,
            },
    {
        let mut i: usize = from;
        while i < to
            invariant
                from <= i,
                to <= self@.data.len(),
                self@.first_gap(from as int, to as int) == self@.first_gap(i as int, to as int),
            decreases to - i,
        {
            assert(self@.data[i as int] == frag_view(self.data_frags@[i as int]));
            if self.data_frags[i].is_none() {
                return Some(i);
            }
            i = i + 1;
        }
        None
    }

    /// Rebuilds the only missing fragment of a group from its parity fragment.
    pub fn maybe_recover_group(&mut self, group_idx: usize) -> (r: bool)
        ensures
            r == (old(self)@.recovered(group_idx as int) is Some),
            final(self)@ == old(self)@.after_recovery(group_idx as int),
    {
        let ghost g = group_idx as int;
        if group_idx >= self.parity_frags.len() {
            return false;
        }
        assert(self@.parity[g] == frag_view(self.parity_frags@[g]));
        let (lo, hi): (usize, usize) = match self.group_range(group_idx) {
            Some(x) => x,
            None => {
                return false;
            },
        };
        let group_len: usize = match self.expected_group_payload_len(group_idx) {
            Some(n) => n,
            None => {
                return false;
            },
        };
        let mut rebuilt: Vec<u8> = match &self.parity_frags[group_idx] {
            Some(parity) => {
                if parity.len() != group_len {
                    return false;
                }
                crate::wire::slice_to_vec(parity.as_slice())
            },
            None => {
                return false;
            },
        };
        let missing: usize = match self.find_gap(lo, hi) {
            Some(m) => m,
            None => {
                return false;
            },
        };
        if self.find_gap(missing + 1, hi).is_some() {
            return false;
        }
        let missing_len: usize = match self.expected_payload_len(missing) {
            Some(n) => n,
            None => {
                return false;
            },
        };
        let ghost parity = rebuilt@;
        let ghost data = self@.data;
        proof {
            lemma_longest_bounds(self@, lo as int, hi as int, missing as int);
            lemma_xor_zero();
        }
        let mut i: usize = lo;
        while i < hi
            invariant
                lo <= i <= hi <= self@.data.len(),
                data == self@.data,
                lo <= missing < hi,
                parity.len() == group_len,
                rebuilt@.len() == parity.len(),
                self@ == old(self)@,
                forall|k: int|
                    0 <= k < parity.len() ==> #[trigger] rebuilt@[k] == parity[k] ^ xor_except(
                        data,
                        lo as int,
                        i as int,
                        missing as int,
                        k,
                    ),
            decreases hi - i,
        {
            assert(data[i as int] == frag_view(self.data_frags@[i as int]));
            let ghost before = rebuilt@;
            if i != missing {
                match &self.data_frags[i] {
                    Some(frag) => {
                        xor_into(&mut rebuilt, frag);
                    },
                    None => {},
                }
            }
            assert forall|k: int| 0 <= k < parity.len() implies #[trigger] rebuilt@[k] == parity[k]
                ^ xor_except(data, lo as int, i + 1, missing as int, k) by {
                let acc = xor_except(data, lo as int, i as int, missing as int, k);
                let b = if i == missing {
                    0u8
                } else {
                    padded_byte(data[i as int], k)
                };
                lemma_xor_assoc(parity[k], acc, b);
                lemma_xor_zero();
                assert(rebuilt@[k] == before[k] ^ b);
            }
            i = i + 1;
        }
        rebuilt.truncate(missing_len);
        assert(rebuilt@ =~= old(self)@.rebuilt(g, missing as int, missing_len as nat));
        self.data_frags.set(missing, Some(rebuilt));
        self.recovered_fragments = self.recovered_fragments.saturating_add(1);
        assert(self@ =~= old(self)@.after_recovery(g));
        true
    }
}

/// XORs a fragment into the front of a buffer, as far as both reach.
fn xor_into(buf: &mut Vec<u8>, frag: &Vec<u8>)
    ensures
        final(buf)@.len() == old(buf)@.len(),
        forall|k: int|
            0 <= k < old(buf)@.len() ==> #[trigger] final(buf)@[k] == old(buf)@[k] ^ padded_byte(
                Some(frag@),
                k,
            ),
{
    proof {
        lemma_xor_zero();
    }
    let mut k: usize = 0;
    while k < buf.len() && k < frag.len()
        invariant
            k <= buf@.len(),
            k <= frag@.len(),
            buf@.len() == old(buf)@.len(),
            forall|j: int|
                0 <= j < k ==> #[trigger] buf@[j] == old(buf)@[j] ^ padded_byte(Some(frag@), j),
            forall|j: int| k <= j < buf@.len() ==> #[trigger] buf@[j] == old(buf)@[j],
        decreases buf@.len() - k,
    {
        let b: u8 = buf[k] ^ frag[k];
        buf.set(k, b);
        k = k + 1;
    }
    assert forall|j: int| 0 <= j < old(buf)@.len() implies #[trigger] buf@[j] == old(buf)@[j]
        ^ padded_byte(Some(frag@), j) by {
        lemma_xor_zero();
    }
}

proof fn lemma_xor_zero()
    ensures
        forall|a: u8| #[trigger] (a ^ 0u8) == a,
{
    assert forall|a: u8| #[trigger] (a ^ 0u8) == a by {
        assert(a ^ 0u8 == a) by (bit_vector);
    }
}

proof fn lemma_xor_assoc(a: u8, b: u8, c: u8)
    ensures
        (a ^ b) ^ c == a ^ (b ^ c),
{
    assert((a ^ b) ^ c == a ^ (b ^ c)) by (bit_vector);
}

/// The lengths of the fragments make up the length of the slice: all but the last have the
/// fragment size, and the last has what is left. Where the others alone would be longer
/// than the slice, the last has no length; nor has one that is none of the slice's.
pub proof fn fragments_fill_the_slice(s: SliceView, i: int)
    ensures
        i < 0 || i >= s.data.len() ==> s.payload_len(i) is None,
        0 <= i < s.data.len() - 1 ==> s.payload_len(i) == Some(s.frag_payload_size as nat),
        i >= 0 && i == s.data.len() - 1 ==> match s.payload_len(i) {
            Some(len) => i * s.frag_payload_size + len == s.slice_len,
            None => i * s.frag_payload_size > s.slice_len,
        },
{
    assert(s.frag_payload_size * (s.data.len() - 1) == (s.data.len() - 1) * s.frag_payload_size)
        by (nonlinear_arith);
}

/// A fresh slice has a place for every fragment, and for one parity fragment for each four
/// of them, the last of which may be fewer; all of the places are empty.
pub proof fn fresh_slices_are_empty(frag_total: u16, slice_len: u32, frag_payload_size: u16)
    ensures
        ({
            let s = SliceView::fresh(frag_total, slice_len, frag_payload_size);
            &&& s.data.len() == frag_total
            &&& 4 * s.parity.len() >= frag_total
            &&& 4 * s.parity.len() < frag_total + 4
            &&& forall|i: int| 0 <= i < s.data.len() ==> (#[trigger] s.data[i]) is None
            &&& forall|g: int| 0 <= g < s.parity.len() ==> (#[trigger] s.parity[g]) is None
            &&& s.frag_total == frag_total && s.slice_len == slice_len && s.frag_payload_size
                == frag_payload_size && s.recovered_fragments == 0
            &&& s.agrees(frag_total, slice_len, frag_payload_size)
        }),
{
}

/// Every fragment belongs to one group: the first four to group 0, the next four to group 1,
/// and so on, as far as there are fragments.
pub proof fn groups_are_of_four(s: SliceView, i: int, g: int)
    requires
        0 <= i < s.data.len(),
    ensures
        SliceView::group_start(g) <= i < s.group_end(g) <==> 4 * g <= i < 4 * g + 4,
        s.group_end(g) <= s.data.len(),
{
}

/// The longest length is that of one of the fragments.
proof fn lemma_longest_is_attained(s: SliceView, lo: int, hi: int) -> (i: int)
    requires
        lo < hi,
        s.longest(lo, hi) is Some,
    ensures
        lo <= i < hi,
        s.payload_len(i) == s.longest(lo, hi),
    decreases hi - lo,
{
    if lo + 1 >= hi {
        lo
    } else {
        let j = lemma_longest_is_attained(s, lo + 1, hi);
        if s.payload_len(lo)->0 >= s.longest(lo + 1, hi)->0 {
            lo
        } else {
            j
        }
    }
}

/// The parity fragment of a group is as long as the longest fragment of the group, which
/// is one of its fragments.
pub proof fn parity_is_as_long_as_the_longest(s: SliceView, g: int, i: int) -> (j: int)
    requires
        s.group_payload_len(g) is Some,
        0 <= i < s.data.len(),
        4 * g <= i < 4 * g + 4,
    ensures
        s.payload_len(i) is Some,
        s.payload_len(i)->0 <= s.group_payload_len(g)->0,
        0 <= j < s.data.len(),
        4 * g <= j < 4 * g + 4,
        s.payload_len(j) == s.group_payload_len(g),
{
    lemma_longest_bounds(s, SliceView::group_start(g), s.group_end(g), i);
    lemma_longest_is_attained(s, SliceView::group_start(g), s.group_end(g))
}

/// A place that is taken keeps what it holds, a place that is free takes what comes, and
/// the other places stay as they are.
pub proof fn places_are_taken_once(s: SliceView, i: int, j: int, payload: Seq<u8>)
    requires
        0 <= i < s.data.len(),
        0 <= j < s.parity.len(),
    ensures
        s.data[i] is Some ==> s.with_data(i, payload) == s,
        s.data[i] is None ==> ({
            let t = s.with_data(i, payload);
            &&& t.data[i] == Some(payload)
            &&& t.data.len() == s.data.len()
            &&& forall|k: int| 0 <= k < s.data.len() && k != i ==> #[trigger] t.data[k] == s.data[k]
            &&& t.parity == s.parity && t.recovered_fragments == s.recovered_fragments
            &&& t.agrees(s.frag_total, s.slice_len, s.frag_payload_size)
        }),
        s.parity[j] is Some ==> s.with_parity(j, payload) == s,
        s.parity[j] is None ==> ({
            let t = s.with_parity(j, payload);
            &&& t.parity[j] == Some(payload)
            &&& t.parity.len() == s.parity.len()
            &&& forall|k: int|
                0 <= k < s.parity.len() && k != j ==> #[trigger] t.parity[k] == s.parity[k]
            &&& t.data == s.data && t.recovered_fragments == s.recovered_fragments
            &&& t.agrees(s.frag_total, s.slice_len, s.frag_payload_size)
        }),
{
}

/// A fragment put in the place that was left out joins the XOR of the others.
proof fn lemma_xor_joins(
    frags: Seq<Option<Seq<u8>>>,
    lo: int,
    hi: int,
    m: int,
    bytes: Seq<u8>,
    k: int,
)
    requires
        0 <= lo,
        hi <= frags.len(),
        0 <= m < frags.len(),
    ensures
        xor_except(frags.update(m, Some(bytes)), lo, hi, -1, k) == if lo <= m < hi {
            xor_except(frags, lo, hi, m, k) ^ padded_byte(Some(bytes), k)
        } else {
            xor_except(frags, lo, hi, m, k)
        },
    decreases hi - lo,
{
    if hi > lo {
        lemma_xor_joins(frags, lo, hi - 1, m, bytes, k);
        let a = xor_except(frags, lo, hi - 1, m, k);
        let b = padded_byte(Some(bytes), k);
        let c = padded_byte(frags[hi - 1], k);
        assert((a ^ b) ^ c == (a ^ c) ^ b && (a ^ 0) ^ b == a ^ b) by (bit_vector);
    }
}

/// Recovery fills the one gap of a group and nothing else: the fragment gets the length that
/// it must have, it is counted, and the fragments of the group then XOR to the parity, as
/// far as the new fragment reaches.
pub proof fn recovery_fills_the_gap(s: SliceView, g: int, m: int, k: int)
    requires
        s.recovered(g) is Some,
        0 <= m < s.data.len(),
        4 * g <= m < 4 * g + 4,
        s.data[m] is None,
    ensures
        ({
            let t = s.recovered(g)->0;
            &&& t.parity == s.parity
            &&& t.agrees(s.frag_total, s.slice_len, s.frag_payload_size)
            &&& t.data.len() == s.data.len()
            &&& forall|i: int| 0 <= i < s.data.len() && i != m ==> #[trigger] t.data[i] == s.data[i]
            &&& t.data[m] matches Some(bytes) && s.payload_len(m) == Some(bytes.len())
            &&& s.recovered_fragments < u16::MAX ==> t.recovered_fragments == s.recovered_fragments
                + 1
            &&& forall|i: int|
                0 <= i < s.data.len() && 4 * g <= i < 4 * g + 4 ==> (#[trigger] t.data[i]) is Some
            &&& 0 <= k < t.data[m]->0.len() ==> xor_except(t.data, 4 * g, s.group_end(g), -1, k)
                == s.parity[g]->0[k]
        }),
{
    let lo = SliceView::group_start(g);
    let hi = s.group_end(g);
    lemma_first_gap(s, lo, hi);
    let gap = s.first_gap(lo, hi)->0;
    lemma_first_gap(s, gap + 1, hi);
    assert(gap == m);
    let t = s.recovered(g)->0;
    let bytes = t.data[m]->0;
    if 0 <= k < bytes.len() {
        lemma_xor_joins(s.data, lo, hi, m, bytes, k);
        let a = xor_except(s.data, lo, hi, m, k);
        let p = s.parity[g]->0[k];
        assert(bytes[k] == p ^ a);
        assert(a ^ (p ^ a) == p) by (bit_vector);
    }
}

/// Where the parity fragment of a group is there, with the length of the group, and exactly
/// one fragment is missing, that fragment is recovered.
pub proof fn one_gap_is_recovered(s: SliceView, g: int, m: int)
    requires
        0 <= g < s.parity.len(),
        s.parity[g] is Some,
        s.group_payload_len(g) == Some(s.parity[g]->0.len()),
        0 <= m < s.data.len(),
        4 * g <= m < 4 * g + 4,
        s.data[m] is None,
        forall|i: int|
            0 <= i < s.data.len() && 4 * g <= i < 4 * g + 4 && i != m ==> (#[trigger] s.data[i])
                is Some,
    ensures
        s.recovered(g) is Some,
        s.after_recovery(g).data[m] is Some,
{
    let lo = SliceView::group_start(g);
    let hi = s.group_end(g);
    lemma_first_gap(s, lo, hi);
    let gap = s.first_gap(lo, hi)->0;
    assert(gap == m);
    lemma_first_gap(s, m + 1, hi);
    lemma_longest_bounds(s, lo, hi, m);
}

/// Without a gap, with two of them, or without its parity, nothing of a group is recovered.
pub proof fn nothing_else_is_recovered(s: SliceView, g: int, i: int, j: int)
    requires
        0 <= i < j < s.data.len(),
        4 * g <= i < j < 4 * g + 4,
        0 <= g < s.parity.len(),
    ensures
        s.data[i] is None && s.data[j] is None ==> s.recovered(g) is None,
        s.parity[g] is None ==> s.recovered(g) is None,
        s.recovered(g) is None ==> s.after_recovery(g) == s,
        (forall|k: int|
            0 <= k < s.data.len() && 4 * g <= k < 4 * g + 4 ==> (#[trigger] s.data[k]) is Some)
            ==> s.recovered(g) is None,
{
    let lo = SliceView::group_start(g);
    let hi = s.group_end(g);
    lemma_first_gap(s, lo, hi);
    if s.first_gap(lo, hi) is Some {
        lemma_first_gap(s, s.first_gap(lo, hi)->0 + 1, hi);
    }
}

} // verus!
