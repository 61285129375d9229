//! Persisted device settings and group presets: the records the store
//! keeps, how its rows read, and which slots presets may use.

use vstd::prelude::*;

use vstd::hash_map::StringHashMap;

use crate::groups::GroupDefinition;
use crate::text::{decimal, decimal_string};

verus! {

/// A device's persisted settings.
#[derive(Debug, Clone)]
pub struct DeviceConfig {
    pub device_id: String,
    pub enabled: bool,
    pub group_id: Option<String>,
    pub is_master: bool,
}

/// The store of device settings and group presets, a database at `path`.
#[derive(Debug)]
pub struct DeviceConfigStore {
    path: String,
}

impl DeviceConfigStore {
    /// The store kept at `path`; the application creates its tables before
    /// it is used.
    pub fn new(path: &str) -> (r: Self)
        ensures
            r.path()@ == path@,
    {
        DeviceConfigStore { path: path.to_owned() }
    }

    /// Where the store's database lives.
    pub closed spec fn path(&self) -> String {
        self.path
    }

    /// Where the store's database lives.
    pub fn path_str(&self) -> (r: &str)
        ensures
            r@ == self.path()@,
    {
        self.path.as_str()
    }
}

/// Read a settings row: flags are stored as integers, non-zero for true.
pub fn config_from_row(device_id: String, enabled: i32, group_id: Option<String>, is_master: i32) -> (r: DeviceConfig)
    ensures
        r.device_id@ == device_id@,
        r.enabled == (enabled != 0),
        r.group_id == group_id,
        r.is_master == (is_master != 0),
{
    DeviceConfig { device_id, enabled: enabled != 0, group_id, is_master: is_master != 0 }
}

/// How a flag is stored: 1 for true, 0 for false.
pub fn flag_to_row(flag: bool) -> (r: i32)
    ensures
        r == (if flag {
            1i32
        } else {
            0i32
        }),
{
    if flag {
        1
    } else {
        0
    }
}

/// The number of preset slots.
pub const PRESET_SLOTS: u8 = 5;

/// Whether a preset slot exists: 1 to 5.
pub fn is_preset_slot(slot: u8) -> (r: bool)
    ensures
        r == (1 <= slot <= PRESET_SLOTS),
{
    1 <= slot && slot <= PRESET_SLOTS
}

/// How a stored slot number reads back (the low byte of the stored integer).
pub fn slot_from_row(v: i32) -> (r: u8)
    ensures
        r == v as u8,
{
    v as u8
}

/// All five preset slots: each slot number's text maps to its groups, or
/// to nothing when the slot is empty or unreadable.
pub struct PresetsResponse {
    pub presets: StringHashMap<Option<Vec<GroupDefinition>>>,
}

/// The first `n` slots, `p[k]` holding slot `k + 1`, keyed by the slot
/// number's text.
pub open spec fn slot_map<V>(p: Seq<V>, n: nat) -> Map<Seq<char>, V>
    decreases n,
{
    if n == 0 {
        Map::empty()
    } else {
        slot_map(p, (n - 1) as nat).insert(decimal(n), p[n - 1])
    }
}

/// Collect the five slots, `parsed[k]` holding slot `k + 1`.
pub fn presets_response(parsed: Vec<Option<Vec<GroupDefinition>>>) -> (r: PresetsResponse)
    requires
        parsed@.len() == PRESET_SLOTS,
    ensures
        r.presets@ == slot_map(parsed@, PRESET_SLOTS as nat),
{
    let ghost orig = parsed@;
    let mut rest = parsed;
    let mut presets: StringHashMap<Option<Vec<GroupDefinition>>> = StringHashMap::new();
    let mut i: usize = 0;
    while i < PRESET_SLOTS as usize
        invariant
            orig.len() == PRESET_SLOTS,
            i <= PRESET_SLOTS,
            rest@ == orig.skip(i as int),
            presets@ == slot_map(orig, i as nat),
        decreases PRESET_SLOTS - i,
    {
        let x = rest.remove(0);
        let key = decimal_string((i + 1) as u64);
        presets.insert(key, x);
        proof {
            assert(rest@ =~= orig.skip(i + 1));
        }
        i = i + 1;
    }
    PresetsResponse { presets }
}

} // verus!
