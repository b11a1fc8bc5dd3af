//! The persisted game state: the snack currency together with its usage
//! statistics, and the mathematical model that the contracts speak of.

use vstd::prelude::*;

verus! {

/// Usage statistics carried inside the save state.
#[derive(Debug, Clone, Copy, PartialEq, Eq, Structural)]
pub struct SaveDataStats {
    /// Incremented once per `add` operation.
    pub total_clicks: u32,
    /// Incremented once per successful `spend` operation.
    pub total_feedings: u32,
    /// The maximum value `snacks` has ever reached; never decreases.
    pub peak_snacks: u32,
    /// Reserved counter, updated by an external collaborator only.
    pub session_playtime: u32,
}

/// The sole persisted entity: a format version tag, the spendable snack
/// currency, and the statistics block.
#[derive(Debug, Clone, Copy, PartialEq, Eq, Structural)]
pub struct SaveData {
    /// Format tag for forward compatibility; currently always 1.
    pub version: u8,
    /// The spendable currency; underflow is prevented by the spend guard.
    pub snacks: u32,
    /// Usage statistics.
    pub stats: SaveDataStats,
}

/// The unbounded mathematical image of a [`SaveData`], used by the contracts
/// and the history lemmas so that no statement depends on machine widths.
pub struct SaveModel {
    pub version: nat,
    pub snacks: nat,
    pub total_clicks: nat,
    pub total_feedings: nat,
    pub peak_snacks: nat,
    pub session_playtime: nat,
}

impl View for SaveData {
    type V = SaveModel;

    open spec fn view(&self) -> SaveModel {
        SaveModel {
            version: self.version as nat,
            snacks: self.snacks as nat,
            total_clicks: self.stats.total_clicks as nat,
            total_feedings: self.stats.total_feedings as nat,
            peak_snacks: self.stats.peak_snacks as nat,
            session_playtime: self.stats.session_playtime as nat,
        }
    }
}

/// The state used on first run and whenever no save document can be read:
/// version 1, no snacks, all statistics zero.
pub open spec fn initial_save() -> SaveData {
    SaveData {
        version: 1,
        snacks: 0,
        stats: SaveDataStats {
            total_clicks: 0,
            total_feedings: 0,
            peak_snacks: 0,
            session_playtime: 0,
        },
    }
}

/// The model of the initial state: all counters zero, version 1.
pub open spec fn initial_model() -> SaveModel {
    initial_save()@
}

impl Default for SaveData {
    /// The default save state is the first-run state.
    fn default() -> (d: Self)
        ensures
            d == initial_save(),
    {
        SaveData {
            version: 1,
            snacks: 0,
            stats: SaveDataStats {
                total_clicks: 0,
                total_feedings: 0,
                peak_snacks: 0,
                session_playtime: 0,
            },
        }
    }
}

} // verus!
