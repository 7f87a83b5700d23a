use vstd::prelude::*;
use crate::error::RuidError;
use vstd::arithmetic::power2::pow2;
use crate::layout::{
    BitLayout, lemma_distinct_suffixes_never_collide, lemma_layout_powers, lemma_pack_bound,
    lemma_pack_ordered, lemma_unpack_identity, lemma_unpack_pack,
};

verus! {

/// The timestamp and sequence number of the last identifier handed out.
#[derive(Clone, Copy, Debug, PartialEq, Eq, Structural)]
pub struct GeneratorState {
    pub last_timestamp: u64,
    pub last_sequence: u64,
}

/// What an allocator is, as far as its behaviour goes: its fixed
/// configuration and its current state.
pub struct AllocatorModel {
    pub layout: BitLayout,
    pub node_suffix: u64,
    pub skew_tolerance_ms: u64,
    pub state: GeneratorState,
}

impl AllocatorModel {
    /// The layout is usable, and the suffix and the state fit its fields.
    pub open spec fn wf(self) -> bool {
        &&& self.layout.wf()
        &&& self.layout.fits(
            self.state.last_timestamp as nat,
            self.state.last_sequence as nat,
            self.node_suffix as nat,
        )
    }

    /// The timestamp that a call observing `now` stamps: `now` itself, or the
    /// last timestamp where the clock has fallen behind it.
    pub open spec fn stamped_time(self, now: u64) -> u64 {
        if now < self.state.last_timestamp {
            self.state.last_timestamp
        } else {
            now
        }
    }

    /// The sequence number that a call observing `now` would use: one more
    /// than the last within the same millisecond, zero in a new one.
    pub open spec fn candidate_sequence(self, now: u64) -> nat {
        if self.stamped_time(now) == self.state.last_timestamp {
            (self.state.last_sequence + 1) as nat
        } else {
            0
        }
    }

    /// What a call observing `now` decides: the state to commit, or the reason
    /// for which nothing is allocated.
    pub open spec fn decide(self, now: u64) -> Result<GeneratorState, RuidError> {
        if now > self.layout.spec_max_timestamp() {
            Err(RuidError::TimestampOverflow)
        } else if now < self.state.last_timestamp && self.state.last_timestamp - now
            > self.skew_tolerance_ms {
            Err(RuidError::ClockRegression { delta: (self.state.last_timestamp - now) as u64 })
        } else if self.candidate_sequence(now) > self.layout.spec_max_sequence() {
            Err(RuidError::SequenceExhausted)
        } else {
            Ok(
                GeneratorState {
                    last_timestamp: self.stamped_time(now),
                    last_sequence: self.candidate_sequence(now) as u64,
                },
            )
        }
    }

    /// The identifier that stands for a state under this allocator's layout and
    /// suffix.
    pub open spec fn id_of(self, state: GeneratorState) -> nat {
        self.layout.spec_pack(
            state.last_timestamp as nat,
            state.last_sequence as nat,
            self.node_suffix as nat,
        )
    }

    /// The same allocator in another state.
    pub open spec fn with_state(self, state: GeneratorState) -> AllocatorModel {
        AllocatorModel { state, ..self }
    }

    /// The allocator after a call observing `now`: advanced where the call
    /// succeeds, unchanged where it fails.
    pub open spec fn after(self, now: u64) -> AllocatorModel {
        match self.decide(now) {
            Ok(state) => self.with_state(state),
            Err(_) => self,
        }
    }

    /// What a call observing `now` returns.
    pub open spec fn result(self, now: u64) -> Result<u64, RuidError> {
        match self.decide(now) {
            Ok(state) => Ok(self.id_of(state) as u64),
            Err(e) => Err(e),
        }
    }

    /// The allocator after one call for each reading in `nows`, in order.
    pub open spec fn after_all(self, nows: Seq<u64>) -> AllocatorModel
        decreases nows.len(),
    {
        if nows.len() == 0 {
            self
        } else {
            self.after_all(nows.drop_last()).after(nows.last())
        }
    }

    /// What the call for `nows[i]` returns when the calls for the readings
    /// before it have been made.
    pub open spec fn nth_result(self, nows: Seq<u64>, i: int) -> Result<u64, RuidError> {
        self.after_all(nows.take(i)).result(nows[i])
    }

    /// The allocator after `count` calls that all observe `now`.
    pub open spec fn after_repeated(self, now: u64, count: nat) -> AllocatorModel
        decreases count,
    {
        if count == 0 {
            self
        } else {
            self.after_repeated(now, (count - 1) as nat).after(now)
        }
    }
}

/// The generator of identifiers for one (cluster, node) pair. It owns the
/// state; callers that share it serialise their calls around it.
pub struct Allocator {
    layout: BitLayout,
    node_suffix: u64,
    skew_tolerance_ms: u64,
    state: GeneratorState,
}

impl View for Allocator {
    type V = AllocatorModel;

    closed spec fn view(&self) -> AllocatorModel {
        AllocatorModel {
            layout: self.layout,
            node_suffix: self.node_suffix,
            skew_tolerance_ms: self.skew_tolerance_ms,
            state: self.state,
        }
    }
}

impl Allocator {
    /// Every allocator that `new` built and `allocate` advanced is well formed.
    pub open spec fn wf(&self) -> bool {
        self@.wf()
    }

    /// Builds the allocator for a layout, an identity pair, a skew tolerance and
    /// the timestamp to start from. The widths and the pair are validated here,
    /// once.
    pub fn new(
        layout: BitLayout,
        cluster_id: u64,
        node_id: u64,
        skew_tolerance_ms: u64,
        initial_timestamp: u64,
    ) -> (r: Result<Allocator, RuidError>)
        ensures
            !layout.wf() || cluster_id > layout.spec_max_cluster() || node_id
                > layout.spec_max_node() ==> r is Err && r->Err_0 == RuidError::ConfigError,
            layout.wf() && cluster_id <= layout.spec_max_cluster() && node_id
                <= layout.spec_max_node() && initial_timestamp > layout.spec_max_timestamp() ==> r is Err
                && r->Err_0 == RuidError::TimestampOverflow,
            layout.wf() && cluster_id <= layout.spec_max_cluster() && node_id
                <= layout.spec_max_node() && initial_timestamp <= layout.spec_max_timestamp() ==> r is Ok
                && r->Ok_0.wf() && r->Ok_0@ == (AllocatorModel {
                layout,
                node_suffix: layout.spec_node_suffix(cluster_id as nat, node_id as nat) as u64,
                skew_tolerance_ms,
                state: GeneratorState { last_timestamp: initial_timestamp, last_sequence: 0 },
            }),
    {
        if !layout.is_valid() {
            return Err(RuidError::ConfigError);
        }
        let node_suffix = match layout.node_suffix(cluster_id, node_id) {
            Ok(suffix) => suffix,
            Err(e) => {
                return Err(e);
            },
        };
        if initial_timestamp > layout.max_timestamp() {
            return Err(RuidError::TimestampOverflow);
        }
        Ok(
            Allocator {
                layout,
                node_suffix,
                skew_tolerance_ms,
                state: GeneratorState { last_timestamp: initial_timestamp, last_sequence: 0 },
            },
        )
    }

    /// Allocates the next identifier for a clock reading of `now` milliseconds
    /// since the epoch. A failure leaves the state as it was.
    pub fn allocate(&mut self, now: u64) -> (r: Result<u64, RuidError>)
        requires
            old(self).wf(),
        ensures
            final(self).wf(),
            r == old(self)@.result(now),
            final(self)@ == old(self)@.after(now),
    {
        let last = self.state;
        if now > self.layout.max_timestamp() {
            return Err(RuidError::TimestampOverflow);
        }
        let time = if now < last.last_timestamp {
            let delta = last.last_timestamp - now;
            if delta > self.skew_tolerance_ms {
                return Err(RuidError::ClockRegression { delta });
            }
            last.last_timestamp
        } else {
            now
        };
        let sequence = if time == last.last_timestamp {
            if last.last_sequence >= self.layout.max_sequence() {
                return Err(RuidError::SequenceExhausted);
            }
            last.last_sequence + 1
        } else {
            0
        };
        proof {
            lemma_pack_bound(self.layout, time as nat, sequence as nat, self.node_suffix as nat);
        }
        let id = self.layout.pack_fields(time, sequence, self.node_suffix);
        self.state = GeneratorState { last_timestamp: time, last_sequence: sequence };
        Ok(id)
    }

    /// The layout that this allocator packs with.
    pub fn layout(&self) -> (layout: BitLayout)
        ensures
            layout == self@.layout,
    {
        self.layout
    }

    /// The suffix stamped into every identifier.
    pub fn node_suffix(&self) -> (suffix: u64)
        ensures
            suffix == self@.node_suffix,
    {
        self.node_suffix
    }

    /// The largest backward jump of the clock that is absorbed.
    pub fn skew_tolerance_ms(&self) -> (tolerance: u64)
        ensures
            tolerance == self@.skew_tolerance_ms,
    {
        self.skew_tolerance_ms
    }

    /// The timestamp and sequence number last committed.
    pub fn state(&self) -> (state: GeneratorState)
        ensures
            state == self@.state,
    {
        self.state
    }
}

/// A successful call commits a state that fits the layout, returns the
/// identifier of that state, and that identifier is greater than the one of the
/// state before. A failed call changes nothing.
pub proof fn lemma_allocation_advances(model: AllocatorModel, now: u64)
    requires
        model.wf(),
    ensures
        model.after(now).wf(),
        model.after(now).layout == model.layout,
        model.after(now).node_suffix == model.node_suffix,
        model.after(now).skew_tolerance_ms == model.skew_tolerance_ms,
        model.id_of(model.after(now).state) <= u64::MAX,
        model.decide(now) is Ok ==> model.result(now) is Ok && model.result(now)->Ok_0
            == model.id_of(model.after(now).state) && model.id_of(model.state) < model.id_of(
            model.after(now).state,
        ),
        model.decide(now) is Err ==> model.result(now) is Err && model.after(now) == model,
{
    lemma_layout_powers(model.layout);
    lemma_pack_bound(
        model.layout,
        model.state.last_timestamp as nat,
        model.state.last_sequence as nat,
        model.node_suffix as nat,
    );
    if model.decide(now) is Ok {
        let next = model.decide(now)->Ok_0;
        lemma_pack_bound(
            model.layout,
            next.last_timestamp as nat,
            next.last_sequence as nat,
            model.node_suffix as nat,
        );
        lemma_pack_ordered(
            model.layout,
            model.state.last_timestamp as nat,
            model.state.last_sequence as nat,
            next.last_timestamp as nat,
            next.last_sequence as nat,
            model.node_suffix as nat,
        );
    }
}

/// Over any run of calls the identifier of the committed state never goes
/// down, and the allocator stays well formed.
pub proof fn lemma_run_never_goes_back(model: AllocatorModel, nows: Seq<u64>, i: int, j: int)
    requires
        model.wf(),
        0 <= i <= j <= nows.len(),
    ensures
        model.after_all(nows.take(i)).wf(),
        model.after_all(nows.take(j)).wf(),
        model.after_all(nows.take(i)).layout == model.layout,
        model.after_all(nows.take(i)).node_suffix == model.node_suffix,
        model.after_all(nows.take(j)).layout == model.layout,
        model.after_all(nows.take(j)).node_suffix == model.node_suffix,
        model.id_of(model.after_all(nows.take(i)).state) <= model.id_of(
            model.after_all(nows.take(j)).state,
        ),
    decreases j,
{
    if j == 0 {
        assert(nows.take(0).len() == 0);
    } else if i == j {
        lemma_run_never_goes_back(model, nows, 0, j - 1);
        assert(nows.take(j).drop_last() == nows.take(j - 1));
        lemma_allocation_advances(model.after_all(nows.take(j - 1)), nows[j - 1]);
    } else {
        lemma_run_never_goes_back(model, nows, i, j - 1);
        assert(nows.take(j).drop_last() == nows.take(j - 1));
        lemma_allocation_advances(model.after_all(nows.take(j - 1)), nows[j - 1]);
    }
}

/// Identifiers strictly increase: of any two successful calls in a run, the
/// later one returns the greater identifier, whatever the clock did in between
/// and whichever other calls failed.
pub proof fn lemma_ids_strictly_increase(model: AllocatorModel, nows: Seq<u64>, i: int, j: int)
    requires
        model.wf(),
        0 <= i < j < nows.len(),
        model.nth_result(nows, i) is Ok,
        model.nth_result(nows, j) is Ok,
    ensures
        model.nth_result(nows, i)->Ok_0 < model.nth_result(nows, j)->Ok_0,
{
    let before_i = model.after_all(nows.take(i));
    let before_j = model.after_all(nows.take(j));
    lemma_run_never_goes_back(model, nows, i, i + 1);
    lemma_run_never_goes_back(model, nows, i + 1, j);
    assert(nows.take(i + 1).drop_last() == nows.take(i));
    assert(nows.take(i + 1).last() == nows[i]);
    lemma_allocation_advances(before_i, nows[i]);
    lemma_allocation_advances(before_j, nows[j]);
}

/// Two successful calls in a row that observe the same reading return
/// identifiers exactly one sequence step apart.
pub proof fn lemma_same_millisecond_step(model: AllocatorModel, now: u64)
    requires
        model.wf(),
        model.result(now) is Ok,
        model.after(now).result(now) is Ok,
    ensures
        model.after(now).result(now)->Ok_0 == model.result(now)->Ok_0 + pow2(
            model.layout.spec_sequence_shift(),
        ),
{
    let first = model.after(now);
    let second = first.after(now);
    lemma_layout_powers(model.layout);
    lemma_allocation_advances(model, now);
    lemma_allocation_advances(first, now);
    let unit = pow2(model.layout.spec_sequence_shift());
    let sequence = first.state.last_sequence;
    assert(second.state.last_timestamp == first.state.last_timestamp);
    assert(second.state.last_sequence == sequence + 1);
    assert((sequence + 1) * unit == sequence * unit + unit) by (nonlinear_arith);
}

/// A call that observes a later millisecond than the last one succeeds with
/// that millisecond as timestamp and with sequence number zero.
pub proof fn lemma_rollover_resets_sequence(model: AllocatorModel, now: u64)
    requires
        model.wf(),
        model.state.last_timestamp < now <= model.layout.spec_max_timestamp(),
    ensures
        model.result(now) is Ok,
        model.layout.spec_timestamp_of(model.result(now)->Ok_0 as nat) == now,
        model.layout.spec_sequence_of(model.result(now)->Ok_0 as nat) == 0,
        model.layout.spec_suffix_of(model.result(now)->Ok_0 as nat) == model.node_suffix,
        model.after(now).state == (GeneratorState { last_timestamp: now, last_sequence: 0 }),
{
    lemma_layout_powers(model.layout);
    lemma_allocation_advances(model, now);
    lemma_unpack_pack(model.layout, now as nat, 0, model.node_suffix as nat);
}

/// The fields of every identifier handed out are those of the state then
/// committed: its timestamp, its sequence number and the allocator's suffix.
pub proof fn lemma_id_holds_committed_state(model: AllocatorModel, now: u64)
    requires
        model.wf(),
        model.result(now) is Ok,
    ensures
        model.layout.spec_timestamp_of(model.result(now)->Ok_0 as nat) == model.after(
            now,
        ).state.last_timestamp,
        model.layout.spec_sequence_of(model.result(now)->Ok_0 as nat) == model.after(
            now,
        ).state.last_sequence,
        model.layout.spec_suffix_of(model.result(now)->Ok_0 as nat) == model.node_suffix,
{
    lemma_allocation_advances(model, now);
    let next = model.after(now).state;
    lemma_unpack_pack(
        model.layout,
        next.last_timestamp as nat,
        next.last_sequence as nat,
        model.node_suffix as nat,
    );
}

/// Every identifier handed out by an allocator that was built for a (cluster,
/// node) pair holds that pair in its cluster and node fields.
pub proof fn lemma_id_holds_identity(
    model: AllocatorModel,
    cluster_id: nat,
    node_id: nat,
    now: u64,
)
    requires
        model.wf(),
        cluster_id <= model.layout.spec_max_cluster(),
        node_id <= model.layout.spec_max_node(),
        model.node_suffix == model.layout.spec_node_suffix(cluster_id, node_id),
        model.result(now) is Ok,
    ensures
        model.layout.spec_cluster_of(model.result(now)->Ok_0 as nat) == cluster_id,
        model.layout.spec_node_of(model.result(now)->Ok_0 as nat) == node_id,
{
    lemma_allocation_advances(model, now);
    let next = model.after(now).state;
    lemma_unpack_identity(
        model.layout,
        next.last_timestamp as nat,
        next.last_sequence as nat,
        cluster_id,
        node_id,
    );
}

/// While the stamped millisecond stays the same, the calls number their
/// identifiers one after the other until the sequence field is full; from then
/// on each call yields `SequenceExhausted` and the state stays as it is.
pub proof fn lemma_repeated_calls(model: AllocatorModel, now: u64, count: nat)
    requires
        model.wf(),
        now <= model.state.last_timestamp,
        model.state.last_timestamp - now <= model.skew_tolerance_ms,
    ensures
        model.after_repeated(now, count).wf(),
        model.after_repeated(now, count) == model.with_state(
            GeneratorState {
                last_timestamp: model.state.last_timestamp,
                last_sequence: if model.state.last_sequence + count
                    <= model.layout.spec_max_sequence() {
                    (model.state.last_sequence + count) as u64
                } else {
                    model.layout.spec_max_sequence() as u64
                },
            },
        ),
        model.state.last_sequence + count < model.layout.spec_max_sequence()
            ==> model.after_repeated(now, count).decide(now) == Ok::<GeneratorState, RuidError>(
            GeneratorState {
                last_timestamp: model.state.last_timestamp,
                last_sequence: (model.state.last_sequence + count + 1) as u64,
            },
        ),
        model.state.last_sequence + count >= model.layout.spec_max_sequence()
            ==> model.after_repeated(now, count).result(now) == Err::<u64, RuidError>(
            RuidError::SequenceExhausted,
        ),
    decreases count,
{
    lemma_layout_powers(model.layout);
    if count > 0 {
        lemma_repeated_calls(model, now, (count - 1) as nat);
    }
}

/// In a millisecond that starts with sequence number zero committed, the call
/// that would need one number more than the sequence field holds yields
/// `SequenceExhausted`; no number is used twice and none wraps.
pub proof fn lemma_sequence_exhausted(model: AllocatorModel, now: u64)
    requires
        model.wf(),
        model.state.last_sequence == 0,
        now <= model.state.last_timestamp,
        model.state.last_timestamp - now <= model.skew_tolerance_ms,
    ensures
        forall|k: nat|
            k < model.layout.spec_max_sequence() ==> #[trigger] model.after_repeated(
                now,
                k,
            ).decide(now) == Ok::<GeneratorState, RuidError>(
                GeneratorState {
                    last_timestamp: model.state.last_timestamp,
                    last_sequence: (k + 1) as u64,
                },
            ),
        model.after_repeated(now, model.layout.spec_max_sequence()).result(now) == Err::<
            u64,
            RuidError,
        >(RuidError::SequenceExhausted),
{
    assert forall|k: nat| k < model.layout.spec_max_sequence() implies #[trigger]
        model.after_repeated(now, k).decide(now) == Ok::<GeneratorState, RuidError>(
        GeneratorState {
            last_timestamp: model.state.last_timestamp,
            last_sequence: (k + 1) as u64,
        },
    ) by {
        lemma_repeated_calls(model, now, k);
    }
    lemma_repeated_calls(model, now, model.layout.spec_max_sequence());
}

/// A reading that is behind the last timestamp by no more than the tolerance is
/// absorbed: the call succeeds, stamps the last timestamp and uses the next
/// sequence number, unless the sequence field is already full.
pub proof fn lemma_skew_absorbed(model: AllocatorModel, now: u64)
    requires
        model.wf(),
        now < model.state.last_timestamp,
        model.state.last_timestamp - now <= model.skew_tolerance_ms,
        model.state.last_sequence < model.layout.spec_max_sequence(),
    ensures
        model.result(now) is Ok,
        model.result(now)->Ok_0 == model.id_of(model.state) + pow2(
            model.layout.spec_sequence_shift(),
        ),
        model.layout.spec_timestamp_of(model.result(now)->Ok_0 as nat)
            == model.state.last_timestamp,
        model.layout.spec_sequence_of(model.result(now)->Ok_0 as nat) == model.state.last_sequence
            + 1,
{
    lemma_layout_powers(model.layout);
    lemma_allocation_advances(model, now);
    lemma_id_holds_committed_state(model, now);
    let unit = pow2(model.layout.spec_sequence_shift());
    let sequence = model.state.last_sequence;
    assert((sequence + 1) * unit == sequence * unit + unit) by (nonlinear_arith);
}

/// A reading that is behind the last timestamp by more than the tolerance is
/// refused with the size of the jump, and the state stays as it is.
pub proof fn lemma_skew_refused(model: AllocatorModel, now: u64)
    requires
        model.wf(),
        now < model.state.last_timestamp,
        model.state.last_timestamp - now > model.skew_tolerance_ms,
    ensures
        model.result(now) == Err::<u64, RuidError>(
            RuidError::ClockRegression { delta: (model.state.last_timestamp - now) as u64 },
        ),
        model.after(now) == model,
{
    lemma_layout_powers(model.layout);
}

/// Allocators that share a layout and stamp different suffixes never hand out
/// the same identifier, whatever their states and whatever readings they see.
pub proof fn lemma_allocators_never_collide(
    first: AllocatorModel,
    second: AllocatorModel,
    first_now: u64,
    second_now: u64,
)
    requires
        first.wf(),
        second.wf(),
        first.layout == second.layout,
        first.node_suffix != second.node_suffix,
        first.result(first_now) is Ok,
        second.result(second_now) is Ok,
    ensures
        first.result(first_now)->Ok_0 != second.result(second_now)->Ok_0,
{
    lemma_allocation_advances(first, first_now);
    lemma_allocation_advances(second, second_now);
    let a = first.after(first_now).state;
    let b = second.after(second_now).state;
    lemma_distinct_suffixes_never_collide(
        first.layout,
        a.last_timestamp as nat,
        a.last_sequence as nat,
        first.node_suffix as nat,
        b.last_timestamp as nat,
        b.last_sequence as nat,
        second.node_suffix as nat,
    );
}

} // verus!
