//! The remote cursor: shapes by generation, and a short history of states so
//! that each video frame is shown with the cursor of its own time.

use crate::yin_yang_proto::packets::{RemoteCursorShape, RemoteCursorShapeView, RemoteCursorState};
use std::collections::{HashMap, VecDeque};
use std::sync::Arc;
use vstd::prelude::*;

verus! {

broadcast use vstd::std_specs::hash::group_hash_axioms;

/// The longest history of states kept.
pub const MAX_CURSOR_STATES: usize = 512;

/// The most shapes kept.
pub const MAX_CURSOR_SHAPES: usize = 32;

/// How far a kept state may lie before the latest one.
pub const MAX_CURSOR_STATE_AGE_US: u64 = 5_000_000;

/// What the store holds.
#[verifier::ext_equal]
pub struct CursorStoreView {
    pub shapes: Map<u64, RemoteCursorShapeView>,
    /// The generations of the shapes, in the order in which they first came.
    pub shape_order: Seq<u64>,
    pub states: Seq<RemoteCursorState>,
}

/// The number of leading states that are not later than `t`.
pub open spec fn count_until(states: Seq<RemoteCursorState>, t: u64) -> nat
    decreases states.len(),
{
    if states.len() == 0 || states[0].timestamp_us > t {
        0
    } else {
        1 + count_until(states.drop_first(), t)
    }
}

/// States in the order of time.
pub open spec fn sorted(states: Seq<RemoteCursorState>) -> bool {
    forall|i: int, j: int|
        0 <= i <= j < states.len() ==> (#[trigger] states[i]).timestamp_us <= (
        #[trigger] states[j]).timestamp_us
}

/// The earliest time that is kept beside the latest state.
pub open spec fn cutoff(states: Seq<RemoteCursorState>) -> int {
    if states.last().timestamp_us >= MAX_CURSOR_STATE_AGE_US {
        states.last().timestamp_us - MAX_CURSOR_STATE_AGE_US
    } else {
        0
    }
}

/// Without the states that are too old.
pub open spec fn without_old(states: Seq<RemoteCursorState>) -> Seq<RemoteCursorState> {
    if cutoff(states) > 0 {
        states.skip(count_until(states, (cutoff(states) - 1) as u64) as int)
    } else {
        states
    }
}

/// The latest `n` states.
pub open spec fn latest(states: Seq<RemoteCursorState>, n: nat) -> Seq<RemoteCursorState> {
    if states.len() > n {
        states.skip(states.len() - n)
    } else {
        states
    }
}

impl CursorStoreView {
    pub open spec fn fresh() -> CursorStoreView {
        CursorStoreView { shapes: Map::empty(), shape_order: Seq::empty(), states: Seq::empty() }
    }

    /// The store is in order: states sorted by time, not too many and not too
    /// old; shapes not too many, and each in the order of arrival exactly once.
    pub open spec fn wf(self) -> bool {
        &&& sorted(self.states)
        &&& self.states.len() <= MAX_CURSOR_STATES
        &&& forall|i: int|
            0 <= i < self.states.len() ==> (#[trigger] self.states[i]).timestamp_us
                + MAX_CURSOR_STATE_AGE_US >= self.states.last().timestamp_us
        &&& self.shape_order.no_duplicates()
        &&& self.shape_order.len() <= MAX_CURSOR_SHAPES
        &&& forall|g: u64|
            #![trigger self.shapes.contains_key(g)]
            self.shapes.contains_key(g) <==> self.shape_order.contains(g)
    }

    /// The store with a shape taken in: a known generation is replaced in
    /// place; with a new one the oldest shape goes if there are too many.
    pub open spec fn with_shape(self, shape: RemoteCursorShapeView) -> CursorStoreView {
        let g = shape.generation;
        if self.shapes.contains_key(g) {
            CursorStoreView { shapes: self.shapes.insert(g, shape), ..self }
        } else if self.shape_order.len() < MAX_CURSOR_SHAPES {
            CursorStoreView {
                shapes: self.shapes.insert(g, shape),
                shape_order: self.shape_order.push(g),
                ..self
            }
        } else {
            CursorStoreView {
                shapes: self.shapes.insert(g, shape).remove(self.shape_order[0]),
                shape_order: self.shape_order.push(g).drop_first(),
                ..self
            }
        }
    }

    /// The store with a state taken in at its place in time; one that equals a
    /// neighbour changes nothing.
    pub open spec fn with_state(self, state: RemoteCursorState) -> CursorStoreView {
        let at = count_until(self.states, state.timestamp_us) as int;
        if at > 0 && self.states[at - 1] == state {
            self
        } else {
            CursorStoreView {
                states: latest(
                    without_old(self.states.insert(at, state)),
                    MAX_CURSOR_STATES as nat,
                ),
                ..self
            }
        }
    }

    /// The state to show at time `t`: the last one not later than `t`, or the
    /// first one if all are later.
    pub open spec fn state_at(self, t: u64) -> Option<RemoteCursorState> {
        let n = count_until(self.states, t) as int;
        if self.states.len() == 0 {
            None
        } else if n == 0 {
            Some(self.states[0])
        } else {
            Some(self.states[n - 1])
        }
    }
}

/// The states before the count are not later than `t`; the one at it is.
pub proof fn lemma_count_until(states: Seq<RemoteCursorState>, t: u64)
    ensures
        count_until(states, t) <= states.len(),
        forall|i: int|
            0 <= i < count_until(states, t) ==> (#[trigger] states[i]).timestamp_us <= t,
        count_until(states, t) < states.len() ==> states[count_until(
            states,
            t,
        ) as int].timestamp_us > t,
    decreases states.len(),
{
    if states.len() > 0 && states[0].timestamp_us <= t {
        let rest = states.drop_first();
        lemma_count_until(rest, t);
        assert forall|i: int| 0 <= i < count_until(states, t) implies (#[trigger] states[i]).timestamp_us
            <= t by {
            if i > 0 {
                assert(rest[i - 1] == states[i]);
            }
        }
    }
}

/// The cursor shown with a video frame.
#[derive(Debug)]
pub struct CursorSnapshot {
    pub state: RemoteCursorState,
    pub shape: Option<Arc<RemoteCursorShape>>,
}

/// The shapes and states received from the server.
#[derive(Debug)]
pub struct RemoteCursorStore {
    shapes: HashMap<u64, Arc<RemoteCursorShape>>,
    shape_order: VecDeque<u64>,
    states: Vec<RemoteCursorState>,
}

impl View for RemoteCursorStore {
    type V = CursorStoreView;

    closed spec fn view(&self) -> CursorStoreView {
        CursorStoreView {
            shapes: self.shapes@.map_values(|s: Arc<RemoteCursorShape>| (*s)@),
            shape_order: self.shape_order@,
            states: self.states@,
        }
    }
}

impl Default for RemoteCursorStore {
    fn default() -> (r: RemoteCursorStore)
        ensures
            r@ == CursorStoreView::fresh(),
            r@.wf(),
    {
        let r = RemoteCursorStore {
            shapes: HashMap::new(),
            shape_order: VecDeque::new(),
            states: Vec::new(),
        };
        assert(r@ =~= CursorStoreView::fresh());
        r
    }
}

/// Counts the leading states that are not later than `t`.
fn partition_point(states: &Vec<RemoteCursorState>, t: u64) -> (n: usize)
    ensures
        n == count_until(states@, t),
        n <= states@.len(),
{
    let mut n: usize = 0;
    assert(states@.skip(0) =~= states@);
    while n < states.len() && states[n].timestamp_us <= t
        invariant
            n <= states@.len(),
            count_until(states@, t) == n + count_until(states@.skip(n as int), t),
        decreases states@.len() - n,
    {
        assert(states@.skip(n as int).drop_first() =~= states@.skip(n + 1));
        n = n + 1;
    }
    n
}

impl RemoteCursorStore {
    /// Takes a shape in.
    pub fn apply_shape(&mut self, shape: RemoteCursorShape)
        requires
            old(self)@.wf(),
        ensures
            final(self)@ == old(self)@.with_shape(shape@),
            final(self)@.wf(),
    {
        let generation: u64 = shape.generation;
        let ghost before = self@;
        let ghost content = shape@;
        let known = self.shapes.contains_key(&generation);
        self.shapes.insert(generation, Arc::new(shape));
        assert(self@.shapes =~= before.shapes.insert(generation, content));
        if !known {
            self.shape_order.push_back(generation);
            if self.shape_order.len() > MAX_CURSOR_SHAPES {
                let ghost order = self@.shape_order;
                match self.shape_order.pop_front() {
                    Some(oldest) => {
                        let _ = self.shapes.remove(&oldest);
                    },
                    None => {},
                }
                assert(order[0] == before.shape_order[0]);
                assert(self@.shape_order =~= order.drop_first());
                assert(self@.shapes =~= before.shapes.insert(generation, content).remove(
                    before.shape_order[0],
                ));
            }
        }
        assert(self@ =~= before.with_shape(content));
        proof {
            lemma_shape_keeps_order(before, content);
        }
    }

    /// Takes a state in.
    pub fn apply_state(&mut self, state: RemoteCursorState)
        requires
            old(self)@.wf(),
        ensures
            final(self)@ == old(self)@.with_state(state),
            final(self)@.wf(),
    {
        proof {
            lemma_state_keeps_order(self@, state);
            lemma_count_until(self@.states, state.timestamp_us);
        }
        let insert_at: usize = partition_point(&self.states, state.timestamp_us);
        if insert_at > 0 && self.states[insert_at - 1] == state {
            return;
        }
        self.states.insert(insert_at, state);
        let ghost inserted = self.states@;
        let count: usize = self.states.len();
        let latest_timestamp: u64 = self.states[count - 1].timestamp_us;
        let earliest: u64 = latest_timestamp.saturating_sub(MAX_CURSOR_STATE_AGE_US);
        if earliest > 0 {
            let first_keep: usize = partition_point(&self.states, earliest - 1);
            if first_keep > 0 {
                self.states = self.states.split_off(first_keep);
            }
        }
        assert(self.states@ =~= without_old(inserted));
        if self.states.len() > MAX_CURSOR_STATES {
            let remove_count: usize = self.states.len() - MAX_CURSOR_STATES;
            self.states = self.states.split_off(remove_count);
        }
        assert(self@ =~= old(self)@.with_state(state));
    }

    /// The cursor to show with a video frame of time `timestamp_us`.
    pub fn snapshot_for(&self, timestamp_us: u64) -> (r: Option<CursorSnapshot>)
        ensures
            match self@.state_at(timestamp_us) {
                None => r is None,
                Some(state) => r matches Some(snapshot) && snapshot.state == state && (
                match snapshot.shape {
                    Some(shape) => self@.shapes.contains_key(state.generation) && (*shape)@
                        == self@.shapes[state.generation],
                    None => !self@.shapes.contains_key(state.generation),
                }),
            },
    {
        let idx: usize = partition_point(&self.states, timestamp_us);
        if self.states.len() == 0 {
            return None;
        }
        let state: RemoteCursorState = if idx == 0 {
            self.states[0]
        } else {
            self.states[idx - 1]
        };
        let shape = match self.shapes.get(&state.generation) {
            Some(shape) => Some(shape.clone()),
            None => None,
        };
        Some(CursorSnapshot { state, shape })
    }
}

/// Taking a shape in keeps the store in order.
pub proof fn lemma_shape_keeps_order(s: CursorStoreView, shape: RemoteCursorShapeView)
    requires
        s.wf(),
    ensures
        s.with_shape(shape).wf(),
{
    let g = shape.generation;
    let after = s.with_shape(shape);
    if s.shapes.contains_key(g) {
        assert(s.shape_order.contains(g));
    } else {
        assert(!s.shape_order.contains(g));
        let order = s.shape_order.push(g);
        assert forall|i: int| 0 <= i < s.shape_order.len() implies s.shape_order[i] != g by {
            assert(s.shape_order.contains(s.shape_order[i]));
        }
        assert(order.no_duplicates());
        assert forall|x: u64| #[trigger] order.contains(x) <==> s.shape_order.contains(x) || x
            == g by {
            if s.shape_order.contains(x) {
                let i = s.shape_order.index_of(x);
                assert(order[i] == x);
            }
            assert(order[s.shape_order.len() as int] == g);
        }
        if s.shape_order.len() >= MAX_CURSOR_SHAPES {
            let oldest = s.shape_order[0];
            let rest = order.drop_first();
            assert forall|i: int| 0 <= i < rest.len() implies #[trigger] rest[i] == order[i + 1] by {}
            assert forall|x: u64| #[trigger] rest.contains(x) <==> order.contains(x) && x
                != oldest by {
                if order.contains(x) && x != oldest {
                    let i = order.index_of(x);
                    assert(rest[i - 1] == x);
                }
                if rest.contains(x) {
                    let i = rest.index_of(x);
                    assert(order[i + 1] == x);
                    assert(order[0] == oldest);
                }
            }
        }
    }
}

/// Taking a state in keeps the store in order.
pub proof fn lemma_state_keeps_order(s: CursorStoreView, state: RemoteCursorState)
    requires
        s.wf(),
    ensures
        s.with_state(state).wf(),
{
    let at = count_until(s.states, state.timestamp_us) as int;
    lemma_count_until(s.states, state.timestamp_us);
    if !(at > 0 && s.states[at - 1] == state) {
        let inserted = s.states.insert(at, state);
        assert(sorted(inserted)) by {
            assert forall|i: int, j: int| 0 <= i <= j < inserted.len() implies (
            #[trigger] inserted[i]).timestamp_us <= (#[trigger] inserted[j]).timestamp_us by {
                let a = if i < at {
                    s.states[i]
                } else if i == at {
                    state
                } else {
                    s.states[i - 1]
                };
                let b = if j < at {
                    s.states[j]
                } else if j == at {
                    state
                } else {
                    s.states[j - 1]
                };
                assert(inserted[i] == a && inserted[j] == b);
                if j > at {
                    assert(s.states[at].timestamp_us <= s.states[j - 1].timestamp_us);
                }
            }
        }
        let kept = without_old(inserted);
        let last = inserted.last().timestamp_us;
        if cutoff(inserted) > 0 {
            let t = (cutoff(inserted) - 1) as u64;
            let n = count_until(inserted, t) as int;
            lemma_count_until(inserted, t);
            assert(n < inserted.len());
            assert(kept =~= inserted.skip(n));
            assert forall|i: int| 0 <= i < kept.len() implies (#[trigger] kept[i]).timestamp_us
                + MAX_CURSOR_STATE_AGE_US >= last by {
                assert(kept[i] == inserted[n + i]);
                assert(inserted[n].timestamp_us <= inserted[n + i].timestamp_us);
            }
        }
        assert(kept.len() > 0 && kept.last().timestamp_us == last);
        let after = latest(kept, MAX_CURSOR_STATES as nat);
        let d = kept.len() - after.len();
        assert forall|i: int| 0 <= i < after.len() implies #[trigger] after[i] == kept[d + i] by {}
        assert(sorted(kept));
        assert(after.last() == kept.last());
    }
}

/// The state shown is the last one not later than the frame; where every state
/// is later, it is the earliest of all.
pub proof fn shown_state_is_in_time(s: CursorStoreView, t: u64)
    requires
        s.wf(),
        s.states.len() > 0,
    ensures
        s.state_at(t) matches Some(shown) && s.states.contains(shown) && (if shown.timestamp_us
            <= t {
            forall|i: int|
                0 <= i < s.states.len() && (#[trigger] s.states[i]).timestamp_us <= t
                    ==> s.states[i].timestamp_us <= shown.timestamp_us
        } else {
            forall|i: int|
                0 <= i < s.states.len() ==> t < shown.timestamp_us <= (
                #[trigger] s.states[i]).timestamp_us
        }),
{
    lemma_count_until(s.states, t);
    let n = count_until(s.states, t) as int;
    if n > 0 {
        assert(s.states.contains(s.states[n - 1]));
        assert forall|i: int| 0 <= i < s.states.len() && (#[trigger] s.states[i]).timestamp_us
            <= t implies s.states[i].timestamp_us <= s.states[n - 1].timestamp_us by {
            if i >= n {
                assert(s.states[n].timestamp_us <= s.states[i].timestamp_us);
            }
        }
    } else {
        assert(s.states.contains(s.states[0]));
    }
}

/// A state just taken in is shown at its own time, unless a later-taken state
/// of the same time hides it.
pub proof fn new_state_is_shown(s: CursorStoreView, state: RemoteCursorState)
    requires
        s.wf(),
        s.states.len() == 0 || s.states.last().timestamp_us <= state.timestamp_us,
    ensures
        s.with_state(state).state_at(state.timestamp_us) == Some(state),
{
    let t = state.timestamp_us;
    lemma_state_keeps_order(s, state);
    lemma_count_until(s.states, t);
    let after = s.with_state(state).states;
    let at = count_until(s.states, t) as int;
    assert(at == s.states.len()) by {
        if at < s.states.len() {
            assert(s.states[at].timestamp_us <= s.states.last().timestamp_us);
        }
    }
    if !(at > 0 && s.states[at - 1] == state) {
        let inserted = s.states.insert(at, state);
        assert(inserted.last() == state);
        if cutoff(inserted) > 0 {
            lemma_count_until(inserted, (cutoff(inserted) - 1) as u64);
        }
        assert(without_old(inserted).last() == state);
        assert(after.last() == state);
    }
    assert(after.len() > 0 && after.last() == state);
    lemma_count_until(after, t);
    let n = count_until(after, t) as int;
    if n < after.len() {
        assert(after[n].timestamp_us <= after.last().timestamp_us);
    }
}

/// The newest shapes survive: after a shape was taken in, its generation is
/// there with that content.
pub proof fn new_shape_is_kept(s: CursorStoreView, shape: RemoteCursorShapeView)
    requires
        s.wf(),
    ensures
        s.with_shape(shape).shapes.contains_key(shape.generation),
        s.with_shape(shape).shapes[shape.generation] == shape,
{
    if !s.shapes.contains_key(shape.generation) && s.shape_order.len() >= MAX_CURSOR_SHAPES {
        assert(s.shape_order.contains(s.shape_order[0]));
    }
}

/// A state goes to its place in time. Where there is room for it and no state lies more
/// than five seconds before another, all the others stay and it is shown at its own
/// time; nothing else comes in. Where 512 states are kept already, the earliest of all
/// goes.
pub proof fn states_are_kept_in_time(s: CursorStoreView, state: RemoteCursorState)
    requires
        s.wf(),
        s.states.len() > 0,
        s.states.last().timestamp_us <= state.timestamp_us + 5_000_000,
        state.timestamp_us <= s.states[0].timestamp_us + 5_000_000,
    ensures
        ({
            let after = s.with_state(state);
            &&& after.shapes == s.shapes && after.shape_order == s.shape_order
            &&& after.states.len() <= 512
            &&& forall|i: int|
                0 <= i < after.states.len() ==> (#[trigger] after.states[i]) == state
                    || s.states.contains(after.states[i])
            &&& s.states.len() < 512 ==> {
                &&& after.state_at(state.timestamp_us) == Some(state)
                &&& !s.states.contains(state) ==> after.states.len() == s.states.len() + 1
                &&& forall|i: int|
                    0 <= i < s.states.len() ==> after.states.contains(#[trigger] s.states[i])
            }
            &&& s.states.len() == 512 && s.states[0].timestamp_us <= state.timestamp_us ==> {
                &&& after.state_at(state.timestamp_us) == Some(state)
                &&& after.states.len() == 512
                &&& forall|i: int|
                    1 <= i < s.states.len() ==> after.states.contains(#[trigger] s.states[i])
            }
        }),
{
    let t = state.timestamp_us;
    let at = count_until(s.states, t) as int;
    lemma_count_until(s.states, t);
    let after = s.with_state(state);
    if at > 0 && s.states[at - 1] == state {
        assert forall|i: int| 0 <= i < s.states.len() implies after.states.contains(
            #[trigger] s.states[i],
        ) by {}
        assert(s.states.contains(state));
    } else {
        let all = s.states.insert(at, state);
        assert forall|i: int| 0 <= i < all.len() implies all[0].timestamp_us <= (
        #[trigger] all[i]).timestamp_us <= all.last().timestamp_us by {
            if i < at {
                assert(all[i] == s.states[i]);
            } else if i > at {
                assert(all[i] == s.states[i - 1]);
            }
        }
        assert(all.last().timestamp_us <= all[0].timestamp_us + 5_000_000);
        assert(without_old(all) == all);
        let drop = if all.len() > 512 {
            1int
        } else {
            0int
        };
        assert(after.states == all.skip(drop));
        assert forall|i: int| 0 <= i < after.states.len() implies (#[trigger] after.states[i])
            == state || s.states.contains(after.states[i]) by {
            let j = i + drop;
            assert(after.states[i] == all[j]);
            if j < at {
                assert(all[j] == s.states[j]);
            } else if j > at {
                assert(all[j] == s.states[j - 1]);
            }
        }
        assert forall|i: int| drop <= i < s.states.len() implies after.states.contains(
            #[trigger] s.states[i],
        ) by {
            let j = if i < at {
                i
            } else {
                i + 1
            };
            assert(all[j] == s.states[i]);
            assert(after.states[j - drop] == s.states[i]);
        }
        lemma_state_keeps_order(s, state);
        if drop <= at {
            assert(after.states[at - drop] == state);
            lemma_count_until(after.states, t);
            let n = count_until(after.states, t) as int;
            if n < at - drop + 1 {
                assert(after.states[n].timestamp_us <= after.states[at - drop].timestamp_us);
            }
            if n > at - drop + 1 {
                assert(after.states[at - drop + 1] == all[at + 1]);
                assert(all[at + 1] == s.states[at]);
            }
        }
    }
}

/// A state that lies more than five seconds before the one just taken in is gone.
pub proof fn old_states_are_dropped(s: CursorStoreView, state: RemoteCursorState, i: int)
    requires
        s.wf(),
        0 <= i < s.with_state(state).states.len(),
    ensures
        s.with_state(state).states[i].timestamp_us + 5_000_000 >= state.timestamp_us,
{
    let t = state.timestamp_us;
    let after = s.with_state(state);
    let at = count_until(s.states, t) as int;
    lemma_count_until(s.states, t);
    lemma_state_keeps_order(s, state);
    if at > 0 && s.states[at - 1] == state {
        assert(s.states[at - 1].timestamp_us <= s.states.last().timestamp_us);
    } else {
        let all = s.states.insert(at, state);
        assert(all[at] == state);
        if at < s.states.len() {
            assert(all.last() == s.states.last());
            assert(s.states[at].timestamp_us <= s.states.last().timestamp_us);
        } else {
            assert(all.last() == state);
        }
        lemma_count_until(all, (cutoff(all) - 1) as u64);
        if cutoff(all) > 0 {
            let n = count_until(all, (cutoff(all) - 1) as u64) as int;
            if n == all.len() {
                assert(all[all.len() - 1].timestamp_us <= cutoff(all) - 1);
            }
        }
        assert(after.states.last() == all.last());
        assert(after.states[i].timestamp_us + MAX_CURSOR_STATE_AGE_US
            >= after.states.last().timestamp_us);
    }
}

/// The first state of a store is kept and shown at every time.
pub proof fn first_states_are_kept(s: CursorStoreView, state: RemoteCursorState, t: u64)
    requires
        s.states.len() == 0,
    ensures
        s.with_state(state).states == seq![state],
        s.with_state(state).state_at(t) == Some(state),
{
    let all = s.states.insert(0, state);
    assert(all == seq![state]);
    assert(without_old(all) == all);
    lemma_count_until(all, t);
}

/// A shape leaves the others as they are, in the order in which they came. Only where
/// it is the thirty-third, the shape that came first goes.
pub proof fn the_first_shape_goes_first(s: CursorStoreView, shape: RemoteCursorShapeView, g: u64)
    requires
        s.wf(),
    ensures
        ({
            let after = s.with_shape(shape);
            let crowded = !s.shapes.contains_key(shape.generation) && s.shape_order.len() == 32;
            &&& after.states == s.states
            &&& after.shape_order.len() <= 32
            &&& g != shape.generation ==> (after.shapes.contains_key(g) <==> s.shapes.contains_key(
                g,
            ) && !(crowded && g == s.shape_order[0]))
            &&& g != shape.generation && after.shapes.contains_key(g) ==> after.shapes[g]
                == s.shapes[g]
            &&& s.shapes.contains_key(shape.generation) ==> after.shape_order == s.shape_order
            &&& !s.shapes.contains_key(shape.generation) ==> {
                &&& after.shape_order.last() == shape.generation
                &&& !crowded ==> after.shape_order.drop_last() == s.shape_order
                &&& crowded ==> after.shape_order.drop_last() == s.shape_order.drop_first()
            }
        }),
{
    let after = s.with_shape(shape);
    if s.shapes.contains_key(shape.generation) {
    } else if s.shape_order.len() < 32 {
        assert(after.shape_order.drop_last() =~= s.shape_order);
    } else {
        assert(after.shape_order.drop_last() =~= s.shape_order.drop_first());
        assert(s.shape_order.contains(s.shape_order[0]));
    }
}

} // verus!
