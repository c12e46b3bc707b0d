//! The relay wire format's identities: which games may send telemetry in
//! it, the port the daemon listens on, and the decoded sample.

use vstd::prelude::*;
use vstd::string::*;
use crate::telemetry_helpers::{relay_fed_ids, plugin_fed};
use crate::text::{str_eq, parse_i64_str, parse_int, parse_i64};

verus! {

/// UDP port the daemon listens on for relay telemetry.
pub const DEFAULT_PORT: u16 = 20780;

/// `str::parse::<u16>`: an optional `+`, then one or more ASCII digits,
/// in range. A leading `-` is no sign for an unsigned type.
pub open spec fn parse_u16(s: Seq<char>) -> Option<u16> {
    if s.len() > 0 && s[0] == '-' {
        None
    } else {
        match parse_int(s) {
            Some(v) => if 0 <= v <= u16::MAX {
                Some(v as u16)
            } else {
                None
            },
            None => None,
        }
    }
}

/// The port a relay sends to, given the port override the environment
/// holds (if any): the override when it reads as a nonzero `u16`, else
/// [`DEFAULT_PORT`].
pub open spec fn port_for(env: Option<Seq<char>>) -> u16 {
    match env {
        Some(v) => match parse_u16(v) {
            Some(p) => if p != 0 {
                p
            } else {
                DEFAULT_PORT
            },
            None => DEFAULT_PORT,
        },
        None => DEFAULT_PORT,
    }
}

/// The port to send to, from the value of the port override variable.
pub fn relay_port(env: Option<&str>) -> (r: u16)
    ensures
        r == port_for(
            match env {
                Some(v) => Some(v@),
                None => None,
            },
        ),
{
    match env {
        None => DEFAULT_PORT,
        Some(v) => {
            let n = v.unicode_len();
            if n > 0 && v.get_char(0) == '-' {
                return DEFAULT_PORT;
            }
            match parse_i64_str(v) {
                Some(p) => if 0 < p && p <= 65535 {
                    p as u16
                } else {
                    DEFAULT_PORT
                },
                None => DEFAULT_PORT,
            }
        },
    }
}

/// Every game id the daemon accepts in the relay wire format: the
/// relay-fed shared-memory sims, and the two truck sims whose native
/// plugin speaks the same format.
pub open spec fn wire_ids() -> Seq<Seq<char>> {
    relay_fed_ids() + seq!["ets2"@, "ats"@]
}

pub fn game_ids() -> (r: Vec<&'static str>)
    ensures
        r@.map_values(|s: &str| s@) == wire_ids(),
{
    let mut v = Vec::new();
    v.push("iracing");
    v.push("raceroom");
    v.push("assetto");
    v.push("acc");
    v.push("ac-evo");
    v.push("rf2");
    v.push("lmu");
    v.push("ets2");
    v.push("ats");
    assert(v@.map_values(|s: &str| s@) =~= wire_ids());
    v
}

/// Whether the daemon accepts samples tagged `id`.
pub fn is_wire_id(id: &str) -> (r: bool)
    ensures
        r == wire_ids().contains(id@),
{
    let ids = game_ids();
    let ghost views = ids@.map_values(|s: &str| s@);
    let mut i: usize = 0;
    while i < ids.len()
        invariant
            i <= ids@.len(),
            views == ids@.map_values(|s: &str| s@),
            views == wire_ids(),
            forall|j: int| 0 <= j < i ==> views[j] != id@,
        decreases ids@.len() - i,
    {
        if str_eq(ids[i], id) {
            assert(views[i as int] == id@);
            return true;
        }
        i = i + 1;
    }
    proof {
        if wire_ids().contains(id@) {
            let j = choose|j: int| 0 <= j < views.len() && views[j] == id@;
            assert(views[j] != id@);
        }
    }
    false
}

/// Every id the daemon accepts in the wire format is fed by exactly one
/// of the two helpers: the in-prefix relay or the truck-sim plugin. So no
/// relay-fed game is one the daemon would drop, and no native truck sim
/// is offered a Windows executable for a prefix it does not have.
pub proof fn lemma_each_wire_id_has_one_helper(id: Seq<char>)
    ensures
        wire_ids().contains(id) <==> (relay_fed_ids().contains(id) || plugin_fed(id)),
        !(relay_fed_ids().contains(id) && plugin_fed(id)),
{
    reveal_strlit("iracing");
    reveal_strlit("raceroom");
    reveal_strlit("assetto");
    reveal_strlit("acc");
    reveal_strlit("ac-evo");
    reveal_strlit("rf2");
    reveal_strlit("lmu");
    reveal_strlit("ets2");
    reveal_strlit("ats");
    let r = relay_fed_ids();
    let w = wire_ids();
    assert forall|j: int| 0 <= j < r.len() implies #[trigger] r[j].len() >= 3 && r[j][1] != 't' by {}
    if relay_fed_ids().contains(id) {
        let j = choose|j: int| 0 <= j < r.len() && r[j] == id;
        assert(w[j] == id);
        assert(id[1] != 't');
    }
    if plugin_fed(id) {
        assert(id[1] == 't');
        if id == "ets2"@ {
            assert(w[7] == id);
        } else {
            assert(w[8] == id);
        }
    }
    if wire_ids().contains(id) {
        let j = choose|j: int| 0 <= j < w.len() && w[j] == id;
        if j < 7 {
            assert(r[j] == id);
        }
    }
}

/// One decoded relay sample. The engine speeds are whole rpm, as the
/// shared-memory sources report them; the throttle is carried as the bits
/// of the `f32` (0.0 to 1.0) the wire format sends.
#[derive(Debug, Clone, Copy, PartialEq, Eq)]
pub struct RelayTelemetry {
    pub game_id: &'static str,
    pub rpm: i32,
    pub max_rpm: i32,
    pub throttle_bits: u32,
    /// Negative reverse, 0 neutral, 1.. forward.
    pub gear: i16,
}

} // verus!
