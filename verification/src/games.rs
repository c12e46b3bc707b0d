//! The shared-memory sims the relay knows how to reach.
//!
//! iRacing publishes under the session-local `Local\` namespace; the rF2
//! family (rFactor 2 and Le Mans Ultimate share the engine and the
//! community `rF2SharedMemoryMapPlugin`) publishes globally named `$...$`
//! sections. A game gets a decoder once its layout can be trusted; the
//! others can only be dumped for now.

use vstd::prelude::*;
use vstd::string::*;
use crate::text::{ascii_lower, eq_ignore_ascii_case, str_eq_ignore_ascii_case};
use crate::relay::wire_ids;

verus! {

/// RaceRoom's relay wire id.
pub const RACEROOM_ID: &'static str = "raceroom";

/// RaceRoom's shared-memory section.
pub const RACEROOM_SECTION: &'static str = "$R3E";

/// The rF2 family's telemetry section, shared by rFactor 2 and Le Mans
/// Ultimate.
pub const RF2_SECTION: &'static str = "$rFactor2SMMP_Telemetry$";

/// What the rF2 family needs installed before it publishes anything.
pub const RF2_PREREQUISITE: &'static str =
    "needs the community rF2SharedMemoryMapPlugin in the game's Plugins directory";

/// One shared-memory sim the relay can open.
#[derive(Clone, Copy, Debug)]
pub struct Game {
    /// CLI name (`--game <id>`).
    pub id: &'static str,
    /// Display name for messages.
    pub name: &'static str,
    /// The Windows named-section name to open.
    pub section: &'static str,
    /// A second section this game's decoder also needs, if any (Assetto
    /// Corsa: its redline is in a different block from its engine speed).
    pub aux_section: Option<&'static str>,
    /// Extra prerequisite the user must have installed, if any.
    pub prerequisite: Option<&'static str>,
    /// Whether a decoder exists, or a dump is all this game can do yet.
    pub decodable: bool,
}

/// A [`Game`] with its texts as character sequences.
pub struct GameView {
    pub id: Seq<char>,
    pub name: Seq<char>,
    pub section: Seq<char>,
    pub aux_section: Option<Seq<char>>,
    pub prerequisite: Option<Seq<char>>,
    pub decodable: bool,
}

pub open spec fn opt_text(o: Option<&'static str>) -> Option<Seq<char>> {
    match o {
        Some(s) => Some(s@),
        None => None,
    }
}

impl View for Game {
    type V = GameView;

    open spec fn view(&self) -> GameView {
        GameView {
            id: self.id@,
            name: self.name@,
            section: self.section@,
            aux_section: opt_text(self.aux_section),
            prerequisite: opt_text(self.prerequisite),
            decodable: self.decodable,
        }
    }
}

/// Every game the relay knows the section name for, in lookup order.
pub open spec fn game_table() -> Seq<GameView> {
    seq![
        GameView {
            id: "iracing"@,
            name: "iRacing"@,
            section: "Local\\IRSDKMemMapFileName"@,
            aux_section: None,
            prerequisite: None,
            decodable: true,
        },
        GameView {
            id: RACEROOM_ID@,
            name: "RaceRoom Racing Experience"@,
            section: RACEROOM_SECTION@,
            aux_section: None,
            prerequisite: None,
            decodable: true,
        },
        GameView {
            id: crate::assettocorsa::ID@,
            name: "Assetto Corsa"@,
            section: crate::assettocorsa::SECTION_PHYSICS@,
            aux_section: Some(crate::assettocorsa::SECTION_STATIC@),
            prerequisite: None,
            decodable: true,
        },
        GameView {
            id: "lmu"@,
            name: "Le Mans Ultimate"@,
            section: RF2_SECTION@,
            aux_section: None,
            prerequisite: Some(RF2_PREREQUISITE@),
            decodable: false,
        },
        GameView {
            id: "rf2"@,
            name: "rFactor 2"@,
            section: RF2_SECTION@,
            aux_section: None,
            prerequisite: Some(RF2_PREREQUISITE@),
            decodable: false,
        },
    ]
}

/// Every game the relay knows the section name for.
pub fn games() -> (r: Vec<Game>)
    ensures
        r@.map_values(|g: Game| g@) == game_table(),
{
    let mut v = Vec::new();
    v.push(
        Game {
            id: "iracing",
            name: "iRacing",
            section: "Local\\IRSDKMemMapFileName",
            aux_section: None,
            prerequisite: None,
            decodable: true,
        },
    );
    v.push(
        Game {
            id: RACEROOM_ID,
            name: "RaceRoom Racing Experience",
            section: RACEROOM_SECTION,
            aux_section: None,
            prerequisite: None,
            decodable: true,
        },
    );
    v.push(
        Game {
            id: crate::assettocorsa::ID,
            name: "Assetto Corsa",
            section: crate::assettocorsa::SECTION_PHYSICS,
            aux_section: Some(crate::assettocorsa::SECTION_STATIC),
            prerequisite: None,
            decodable: true,
        },
    );
    v.push(
        Game {
            id: "lmu",
            name: "Le Mans Ultimate",
            section: RF2_SECTION,
            aux_section: None,
            prerequisite: Some(RF2_PREREQUISITE),
            decodable: false,
        },
    );
    v.push(
        Game {
            id: "rf2",
            name: "rFactor 2",
            section: RF2_SECTION,
            aux_section: None,
            prerequisite: Some(RF2_PREREQUISITE),
            decodable: false,
        },
    );
    assert(v@.map_values(|g: Game| g@) =~= game_table());
    v
}

/// `i` is the first entry of the table whose id matches `id`, ignoring
/// ASCII case.
pub open spec fn first_match(id: Seq<char>, i: int) -> bool {
    &&& 0 <= i < game_table().len()
    &&& eq_ignore_ascii_case(game_table()[i].id, id)
    &&& forall|j: int| 0 <= j < i ==> !eq_ignore_ascii_case(#[trigger] game_table()[j].id, id)
}

/// The long name the usage text gives Assetto Corsa, which stands for its
/// id.
pub const ASSETTO_CORSA_ALIAS: &'static str = "assetto-corsa";

/// The id a CLI name stands for: Assetto Corsa's long name stands for its
/// id (ignoring ASCII case), every other name for itself.
pub open spec fn canonical_id(id: Seq<char>) -> Seq<char> {
    if eq_ignore_ascii_case(id, ASSETTO_CORSA_ALIAS@) {
        crate::assettocorsa::ID@
    } else {
        id
    }
}

/// The table entry whose id is `id`, ignoring ASCII case: the first whose
/// id matches, if any does.
pub open spec fn lookup_id(id: Seq<char>) -> Option<GameView> {
    if exists|i: int| first_match(id, i) {
        Some(game_table()[choose|i: int| first_match(id, i)])
    } else {
        None
    }
}

/// The table entry that the CLI name `id` names.
pub open spec fn lookup(id: Seq<char>) -> Option<GameView> {
    lookup_id(canonical_id(id))
}

/// Assetto Corsa's long name, which the usage text lists among the games
/// that stream, names the same game as its id.
pub proof fn lemma_long_name_names_assetto()
    ensures
        lookup(ASSETTO_CORSA_ALIAS@) == lookup(crate::assettocorsa::ID@),
        lookup(ASSETTO_CORSA_ALIAS@) == Some(game_table()[2]),
{
    reveal_strlit("assetto-corsa");
    reveal_strlit("assetto");
    reveal_strlit("iracing");
    reveal_strlit("raceroom");
    let a = crate::assettocorsa::ID@;
    assert(eq_ignore_ascii_case(ASSETTO_CORSA_ALIAS@, ASSETTO_CORSA_ALIAS@));
    assert(!eq_ignore_ascii_case(a, ASSETTO_CORSA_ALIAS@));
    assert(canonical_id(ASSETTO_CORSA_ALIAS@) == a);
    assert(canonical_id(a) == a);
    assert(!eq_ignore_ascii_case(game_table()[0].id, a)) by {
        assert(ascii_lower(game_table()[0].id[0]) != ascii_lower(a[0]));
    }
    assert(!eq_ignore_ascii_case(game_table()[1].id, a)) by {
        assert(game_table()[1].id.len() != a.len());
    }
    assert(eq_ignore_ascii_case(game_table()[2].id, a));
    assert(first_match(a, 2));
    let k = choose|k: int| first_match(a, k);
    lemma_first_match_unique(a, 2, k);
}

/// At most one entry is the first match.
pub proof fn lemma_first_match_unique(id: Seq<char>, i: int, j: int)
    requires
        first_match(id, i),
        first_match(id, j),
    ensures
        i == j,
{
    if i < j {
        assert(!eq_ignore_ascii_case(game_table()[i].id, id));
    } else if j < i {
        assert(!eq_ignore_ascii_case(game_table()[j].id, id));
    }
}

pub open spec fn opt_game(o: Option<Game>) -> Option<GameView> {
    match o {
        Some(g) => Some(g@),
        None => None,
    }
}

/// Look up a game by its CLI name, ignoring ASCII case: its id, or for
/// Assetto Corsa also its long name.
pub fn by_id(id: &str) -> (r: Option<Game>)
    ensures
        opt_game(r) == lookup(id@),
{
    let key = if str_eq_ignore_ascii_case(id, ASSETTO_CORSA_ALIAS) {
        crate::assettocorsa::ID
    } else {
        id
    };
    find_game(key)
}

/// The first game whose id is `id`, ignoring ASCII case.
fn find_game(id: &str) -> (r: Option<Game>)
    ensures
        opt_game(r) == lookup_id(id@),
        r is None <==> forall|i: int|
            0 <= i < game_table().len() ==> !eq_ignore_ascii_case(#[trigger] game_table()[i].id, id@),
        r matches Some(g) ==> exists|i: int| first_match(id@, i) && g@ == game_table()[i],
{
    let table = games();
    let ghost views = table@.map_values(|g: Game| g@);
    let mut i: usize = 0;
    while i < table.len()
        invariant
            i <= table@.len(),
            views == table@.map_values(|g: Game| g@),
            views == game_table(),
            forall|j: int| 0 <= j < i ==> !eq_ignore_ascii_case(#[trigger] game_table()[j].id, id@),
        decreases table@.len() - i,
    {
        let g = table[i];
        if str_eq_ignore_ascii_case(g.id, id) {
            assert(views[i as int] == g@);
            assert(first_match(id@, i as int));
            proof {
                let k = choose|k: int| first_match(id@, k);
                lemma_first_match_unique(id@, i as int, k);
            }
            return Some(g);
        }
        assert(views[i as int] == g@);
        i = i + 1;
    }
    proof {
        if exists|k: int| first_match(id@, k) {
            let k = choose|k: int| first_match(id@, k);
            assert(!eq_ignore_ascii_case(game_table()[k].id, id@));
        }
    }
    None
}

/// Every game the relay can decode sends samples under an id the daemon
/// accepts: a decoder whose id the daemon drops would stream into a void
/// that looks exactly like a game that is not publishing.
pub proof fn lemma_decodable_games_have_wire_ids()
    ensures
        forall|i: int|
            0 <= i < game_table().len() && (#[trigger] game_table()[i]).decodable ==> wire_ids().contains(
                game_table()[i].id,
            ),
{
    reveal_strlit("iracing");
    reveal_strlit("raceroom");
    reveal_strlit("assetto");
    assert(wire_ids()[0] == "iracing"@);
    assert(wire_ids()[1] == "raceroom"@);
    assert(wire_ids()[2] == "assetto"@);
}

/// Only Assetto Corsa needs a second section, and it names one.
pub proof fn lemma_only_assetto_corsa_has_two_sections()
    ensures
        forall|i: int|
            0 <= i < game_table().len() ==> ((#[trigger] game_table()[i]).aux_section is Some
                <==> game_table()[i].id == crate::assettocorsa::ID@),
{
    reveal_strlit("iracing");
    reveal_strlit("raceroom");
    reveal_strlit("assetto");
    reveal_strlit("lmu");
    reveal_strlit("rf2");
    let a = crate::assettocorsa::ID@;
    assert(game_table()[0].id[0] != a[0]);
    assert(game_table()[1].id[0] != a[0]);
    assert(game_table()[3].id[0] != a[0]);
    assert(game_table()[4].id[0] != a[0]);
}

} // verus!
