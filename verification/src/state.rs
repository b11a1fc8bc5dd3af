//! The state manager: owns the in-memory save state and exposes the atomic
//! read-modify-write operations behind the UI commands, together with the
//! history lemmas that pin down how the statistics relate to any sequence of
//! operations.
//!
//! Every method takes `&mut self`, so Rust's exclusive borrows already forbid
//! two operations from interleaving on one manager; a host that shares the
//! manager across threads wraps it in a mutual-exclusion lock and holds the
//! lock for the whole read-modify-write (and for the persistence write that
//! follows a mutation, or for an atomic snapshot of the new state).

use vstd::prelude::*;

use crate::save::initial_model;
use crate::save::initial_save;
use crate::save::SaveData;
use crate::save::SaveModel;

verus! {

/// One state-manager operation, at the model level.
pub enum Op {
    /// Add `amount` snacks and count a click.
    Add { amount: nat },
    /// Spend `amount` snacks if the balance allows it and count a feeding;
    /// otherwise change nothing.
    Spend { amount: nat },
}

/// The effect of a single operation on the model state.
///
/// An `Add` always succeeds: it raises the balance, counts one click, and
/// lifts the peak to the new balance if that is higher. A `Spend` succeeds
/// exactly when the balance covers the amount; a failed spend changes
/// nothing at all.
pub open spec fn apply_op(m: SaveModel, op: Op) -> SaveModel {
    match op {
        Op::Add { amount } => {
            let snacks = m.snacks + amount;
            SaveModel {
                version: m.version,
                snacks: snacks,
                total_clicks: m.total_clicks + 1,
                total_feedings: m.total_feedings,
                peak_snacks: if snacks > m.peak_snacks {
                    snacks
                } else {
                    m.peak_snacks
                },
                session_playtime: m.session_playtime,
            }
        }
        Op::Spend { amount } => {
            if amount <= m.snacks {
                SaveModel {
                    version: m.version,
                    snacks: (m.snacks - amount) as nat,
                    total_clicks: m.total_clicks,
                    total_feedings: m.total_feedings + 1,
                    peak_snacks: m.peak_snacks,
                    session_playtime: m.session_playtime,
                }
            } else {
                m
            }
        }
    }
}

/// The state after running a whole sequence of operations from `m`.
pub open spec fn run_ops(m: SaveModel, ops: Seq<Op>) -> SaveModel
    decreases ops.len(),
{
    if ops.len() == 0 {
        m
    } else {
        apply_op(run_ops(m, ops.drop_last()), ops.last())
    }
}

/// The highest balance attained anywhere along the run of `ops` from `m`,
/// the starting balance included.
pub open spec fn high_water(m: SaveModel, ops: Seq<Op>) -> nat
    decreases ops.len(),
{
    if ops.len() == 0 {
        m.snacks
    } else {
        let prev = high_water(m, ops.drop_last());
        let cur = run_ops(m, ops).snacks;
        if cur > prev {
            cur
        } else {
            prev
        }
    }
}

/// How many of `ops` are `Add` operations.
pub open spec fn count_adds(ops: Seq<Op>) -> nat
    decreases ops.len(),
{
    if ops.len() == 0 {
        0
    } else {
        count_adds(ops.drop_last()) + (if ops.last() is Add {
            1nat
        } else {
            0nat
        })
    }
}

/// How many of `ops` are `Spend` operations that succeed when the sequence
/// is run from `m`: spends whose amount is covered by the balance at their
/// turn.
pub open spec fn count_successful_spends(m: SaveModel, ops: Seq<Op>) -> nat
    decreases ops.len(),
{
    if ops.len() == 0 {
        0
    } else {
        count_successful_spends(m, ops.drop_last()) + (match ops.last() {
            Op::Spend { amount } => {
                if amount <= run_ops(m, ops.drop_last()).snacks {
                    1nat
                } else {
                    0nat
                }
            }
            Op::Add { .. } => 0nat,
        })
    }
}

/// A spend that the balance does not cover is a no-op: the state after it is
/// the state before it, so the balance can never fall below zero.
pub proof fn lemma_insufficient_spend_is_noop(m: SaveModel, amount: nat)
    requires
        amount > m.snacks,
    ensures
        apply_op(m, (Op::Spend { amount })) == m,
{
}

/// The peak never sits below the balance, for any run that starts in a state
/// with that property (the initial state has it: both are zero).
pub proof fn lemma_peak_covers_balance(m: SaveModel, ops: Seq<Op>)
    requires
        m.peak_snacks >= m.snacks,
    ensures
        run_ops(m, ops).peak_snacks >= run_ops(m, ops).snacks,
    decreases ops.len(),
{
    if ops.len() > 0 {
        lemma_peak_covers_balance(m, ops.drop_last());
    }
}

/// After any sequence of operations from a state whose peak equals its
/// balance (as in the initial state), the recorded peak equals the highest
/// balance attained anywhere along the run.
pub proof fn lemma_peak_is_high_water(m: SaveModel, ops: Seq<Op>)
    requires
        m.peak_snacks == m.snacks,
    ensures
        run_ops(m, ops).peak_snacks == high_water(m, ops),
    decreases ops.len(),
{
    if ops.len() > 0 {
        lemma_peak_is_high_water(m, ops.drop_last());
        lemma_peak_covers_balance(m, ops.drop_last());
    }
}

/// The click counter counts exactly the `Add` operations, and the feeding
/// counter counts exactly the spends that succeeded, for any run.
pub proof fn lemma_counters_count_ops(m: SaveModel, ops: Seq<Op>)
    ensures
        run_ops(m, ops).total_clicks == m.total_clicks + count_adds(ops),
        run_ops(m, ops).total_feedings == m.total_feedings + count_successful_spends(m, ops),
    decreases ops.len(),
{
    if ops.len() > 0 {
        lemma_counters_count_ops(m, ops.drop_last());
    }
}

/// From state creation, the recorded peak equals the highest balance the
/// state has attained, for any interleaving of operations.
pub proof fn lemma_peak_since_creation(ops: Seq<Op>)
    ensures
        run_ops(initial_model(), ops).peak_snacks == high_water(initial_model(), ops),
{
    lemma_peak_is_high_water(initial_model(), ops);
}

/// From state creation, the click counter equals the number of `Add`
/// operations made and the feeding counter equals the number of spends that
/// succeeded.
pub proof fn lemma_counters_since_creation(ops: Seq<Op>)
    ensures
        run_ops(initial_model(), ops).total_clicks == count_adds(ops),
        run_ops(initial_model(), ops).total_feedings == count_successful_spends(
            initial_model(),
            ops,
        ),
{
    lemma_counters_count_ops(initial_model(), ops);
}

/// The amount an optional command argument stands for: the argument itself,
/// or one where none was given.
pub open spec fn amount_or_one(amount: Option<u32>) -> u32 {
    match amount {
        Option::Some(a) => a,
        Option::None => 1,
    }
}

/// The state manager. It is constructed once at startup and exclusively owns
/// the in-memory save state.
pub struct SnackState {
    /// The single authoritative in-memory copy of the save state.
    pub data: SaveData,
}

impl Default for SnackState {
    /// A fresh manager holds the first-run save state.
    fn default() -> (s: Self)
        ensures
            s.data == initial_save(),
    {
        SnackState { data: SaveData::default() }
    }
}

impl SnackState {
    /// Replace the in-memory state wholesale with what the persistence layer
    /// read, or with the first-run state when nothing well-formed was read,
    /// and return the resulting value. Never fails.
    pub fn load_save(&mut self, loaded: Option<SaveData>) -> (d: SaveData)
        ensures
            final(self).data == (match loaded {
                Option::Some(read) => read,
                Option::None => initial_save(),
            }),
            d == final(self).data,
    {
        let new_data = match loaded {
            Option::Some(read) => read,
            Option::None => SaveData::default(),
        };
        self.data = new_data;
        new_data
    }

    /// Add snacks: raise the balance by the given amount (one by default),
    /// count one click, and lift the peak to the new balance if that is
    /// higher. Returns the new balance, the payload of the change
    /// notification. Unconditionally succeeds on every input the counters
    /// can still represent.
    pub fn snack_add(&mut self, amount: Option<u32>) -> (new_total: u32)
        requires
            old(self).data.snacks + amount_or_one(amount) <= u32::MAX,
            old(self).data.stats.total_clicks < u32::MAX,
        ensures
            final(self).data@ == apply_op(
                old(self).data@,
                (Op::Add { amount: amount_or_one(amount) as nat }),
            ),
            new_total == final(self).data.snacks,
    {
        let amount = match amount {
            Option::Some(a) => a,
            Option::None => 1,
        };
        self.data.snacks = self.data.snacks + amount;
        self.data.stats.total_clicks = self.data.stats.total_clicks + 1;
        if self.data.snacks > self.data.stats.peak_snacks {
            self.data.stats.peak_snacks = self.data.snacks;
        }
        self.data.snacks
    }

    /// Spend snacks: when the balance covers the given amount (one by
    /// default), lower the balance by it, count one feeding, and report
    /// success; otherwise change nothing and report failure. The guard is
    /// what keeps the balance from ever going negative.
    pub fn snack_spend(&mut self, amount: Option<u32>) -> (success: bool)
        requires
            amount_or_one(amount) <= old(self).data.snacks ==> old(
                self,
            ).data.stats.total_feedings < u32::MAX,
        ensures
            success == (amount_or_one(amount) <= old(self).data.snacks),
            final(self).data@ == apply_op(
                old(self).data@,
                (Op::Spend { amount: amount_or_one(amount) as nat }),
            ),
    {
        let amount = match amount {
            Option::Some(a) => a,
            Option::None => 1,
        };
        if self.data.snacks >= amount {
            self.data.snacks = self.data.snacks - amount;
            self.data.stats.total_feedings = self.data.stats.total_feedings + 1;
            true
        } else {
            false
        }
    }
}

} // verus!
