//! Where the two telemetry helpers come from and where they go: the
//! Windows relay, placed in a game's wine prefix, and the truck-sim plugin,
//! placed in the game's installation. Paths are handled as text; the
//! filesystem checks are the caller's.

use vstd::prelude::*;
use vstd::string::*;
use crate::text::str_eq;

verus! {

/// The relay's file name, in the shared directory and in the prefix.
pub const RELAY_BIN: &'static str = "logi-tf-relay.exe";

/// The truck-sim plugin's file name; the game loads it by this name.
pub const SCS_PLUGIN: &'static str = "liblogi_tf_scs.so";

/// Where packages stage their master copies.
pub const SHARED_DIR: &'static str = "/usr/share/logitech-trueforce";

/// The same, for a `/usr/local` install.
pub const SHARED_DIR_LOCAL: &'static str = "/usr/local/share/logitech-trueforce";

/// Where the relay goes inside a wine prefix: the drive root, so the
/// in-prefix path is short and outside anything a game update replaces.
pub const PREFIX_RELAY_DIR: &'static str = "drive_c";

/// Where an SCS-engine game looks for plugins, under its installation.
pub const SCS_PLUGIN_DIR: &'static str = "bin/linux_x64/plugins";

/// How many directories above the running executable to look for a
/// checkout.
pub const MAX_WALK_UP: usize = 8;

/// The relay's path inside a repository checkout.
pub const REPO_RELAY: &'static str = "tools/logi-tf-relay.exe";

/// The plugin's path inside a checkout's build output.
pub const REPO_SCS: &'static str = "userspace/logi-wheel/target/release/liblogi_tf_scs.so";

/// `base` joined with the relative path `comp`, as `Path::join` does: a
/// separator is added unless `base` is empty or already ends in one.
pub open spec fn path_join(base: Seq<char>, comp: Seq<char>) -> Seq<char> {
    if base.len() == 0 || base.last() == '/' {
        base + comp
    } else {
        base + seq!['/'] + comp
    }
}

/// Join the relative path `comp` onto `base`.
pub fn join_path(base: &str, comp: &str) -> (r: String)
    ensures
        r@ == path_join(base@, comp@),
{
    let n = base.unicode_len();
    let mut s = String::from_str(base);
    if n > 0 && base.get_char(n - 1) != '/' {
        proof {
            reveal_strlit("/");
        }
        s.append("/");
    }
    s.append(comp);
    s
}

/// Steam appids of the games that load the plugin. Both are native Linux
/// titles with no Proton prefix, so nothing else would find them.
pub open spec fn scs_games() -> Seq<(u32, Seq<char>)> {
    seq![(227300u32, "Euro Truck Simulator 2"@), (270880u32, "American Truck Simulator"@)]
}

pub fn scs_appids() -> (r: Vec<(u32, &'static str)>)
    ensures
        r@.len() == scs_games().len(),
        forall|i: int| 0 <= i < r@.len() ==> r@[i].0 == scs_games()[i].0 && r@[i].1@ == scs_games()[i].1,
{
    let mut v = Vec::new();
    v.push((227300u32, "Euro Truck Simulator 2"));
    v.push((270880u32, "American Truck Simulator"));
    v
}

/// The daemon game ids fed by the in-prefix relay (the truck sims speak
/// the same wire format, but from their native plugin).
pub open spec fn relay_fed_ids() -> Seq<Seq<char>> {
    seq!["iracing"@, "raceroom"@, "assetto"@, "acc"@, "ac-evo"@, "rf2"@, "lmu"@]
}

pub fn relay_game_ids() -> (r: Vec<&'static str>)
    ensures
        r@.map_values(|s: &str| s@) == relay_fed_ids(),
{
    let mut v = Vec::new();
    v.push("iracing");
    v.push("raceroom");
    v.push("assetto");
    v.push("acc");
    v.push("ac-evo");
    v.push("rf2");
    v.push("lmu");
    assert(v@.map_values(|s: &str| s@) =~= relay_fed_ids());
    v
}

/// Whether the game gated by `game_id` is fed by the relay.
pub fn needs_relay(game_id: &str) -> (r: bool)
    ensures
        r == relay_fed_ids().contains(game_id@),
{
    let ids = relay_game_ids();
    let ghost views = ids@.map_values(|s: &str| s@);
    let mut i: usize = 0;
    while i < ids.len()
        invariant
            i <= ids@.len(),
            views == ids@.map_values(|s: &str| s@),
            views == relay_fed_ids(),
            forall|j: int| 0 <= j < i ==> views[j] != game_id@,
        decreases ids@.len() - i,
    {
        if str_eq(ids[i], game_id) {
            assert(views[i as int] == game_id@);
            return true;
        }
        i = i + 1;
    }
    proof {
        if relay_fed_ids().contains(game_id@) {
            let j = choose|j: int| 0 <= j < views.len() && views[j] == game_id@;
            assert(views[j] != game_id@);
        }
    }
    false
}

/// The games fed by the truck-sim plugin, natively inside the game.
pub open spec fn plugin_fed(game_id: Seq<char>) -> bool {
    game_id == "ets2"@ || game_id == "ats"@
}

/// Whether the game gated by `game_id` is fed by the truck-sim plugin.
pub fn needs_scs_plugin(game_id: &str) -> (r: bool)
    ensures
        r == plugin_fed(game_id@),
{
    str_eq(game_id, "ets2") || str_eq(game_id, "ats")
}

/// Where the relay goes in the wine prefix `prefix`.
pub fn relay_target(prefix: &str) -> (r: String)
    ensures
        r@ == path_join(path_join(prefix@, PREFIX_RELAY_DIR@), RELAY_BIN@),
{
    let dir = join_path(prefix, PREFIX_RELAY_DIR);
    join_path(dir.as_str(), RELAY_BIN)
}

/// Where the plugin goes in the game installation `game_dir`.
pub fn scs_target(game_dir: &str) -> (r: String)
    ensures
        r@ == path_join(path_join(game_dir@, SCS_PLUGIN_DIR@), SCS_PLUGIN@),
{
    let dir = join_path(game_dir, SCS_PLUGIN_DIR);
    join_path(dir.as_str(), SCS_PLUGIN)
}

/// The command line that runs an installed relay for `game_id` in
/// `prefix`. Returned rather than run, so a front-end can show it and a
/// user can adjust it.
pub fn relay_command(prefix: &str, game_id: &str) -> (r: String)
    ensures
        r@ == "WINEPREFIX="@ + prefix@ + " wine c:\\\\"@ + RELAY_BIN@ + " --game "@ + game_id@,
{
    let mut s = String::from_str("WINEPREFIX=");
    s.append(prefix);
    s.append(" wine c:\\\\");
    s.append(RELAY_BIN);
    s.append(" --game ");
    s.append(game_id);
    s
}

/// Where to look for a helper, in order: `name` in each staging root,
/// then `repo_rel` under each of the first [`MAX_WALK_UP`] directories
/// above the running executable (`exe_dirs`, nearest first).
pub open spec fn helper_candidates(
    name: Seq<char>,
    repo_rel: Seq<char>,
    roots: Seq<Seq<char>>,
    exe_dirs: Seq<Seq<char>>,
) -> Seq<Seq<char>> {
    roots.map_values(|r: Seq<char>| path_join(r, name)) + exe_dirs.take(
        if exe_dirs.len() < MAX_WALK_UP {
            exe_dirs.len() as int
        } else {
            MAX_WALK_UP as int
        },
    ).map_values(|d: Seq<char>| path_join(d, repo_rel))
}

/// The candidates in order, as paths.
pub fn candidates(name: &str, repo_rel: &str, roots: &[String], exe_dirs: &[String]) -> (r: Vec<String>)
    ensures
        r@.map_values(|s: String| s@) == helper_candidates(
            name@,
            repo_rel@,
            roots@.map_values(|s: String| s@),
            exe_dirs@.map_values(|s: String| s@),
        ),
{
    let ghost want = helper_candidates(
        name@,
        repo_rel@,
        roots@.map_values(|s: String| s@),
        exe_dirs@.map_values(|s: String| s@),
    );
    let mut out: Vec<String> = Vec::new();
    let mut i: usize = 0;
    while i < roots.len()
        invariant
            i <= roots@.len(),
            out@.len() == i,
            forall|j: int| 0 <= j < i ==> #[trigger] out@[j]@ == path_join(roots@[j]@, name@),
        decreases roots@.len() - i,
    {
        out.push(join_path(roots[i].as_str(), name));
        i = i + 1;
    }
    let limit: usize = if exe_dirs.len() < MAX_WALK_UP {
        exe_dirs.len()
    } else {
        MAX_WALK_UP
    };
    let mut k: usize = 0;
    while k < limit
        invariant
            limit <= exe_dirs@.len(),
            k <= limit,
            out@.len() == roots@.len() + k,
            forall|j: int| 0 <= j < roots@.len() ==> #[trigger] out@[j]@ == path_join(roots@[j]@, name@),
            forall|j: int|
                0 <= j < k ==> out@[roots@.len() + j]@ == path_join(#[trigger] exe_dirs@[j]@, repo_rel@),
        decreases limit - k,
    {
        out.push(join_path(exe_dirs[k].as_str(), repo_rel));
        k = k + 1;
    }
    let ghost outv = out@.map_values(|s: String| s@);
    assert(outv =~= want) by {
        assert forall|j: int| 0 <= j < want.len() implies #[trigger] outv[j] == want[j] by {
            if j >= roots@.len() {
                let d = j - roots@.len();
                assert(exe_dirs@[d]@ == exe_dirs@[d]@);
                assert(out@[roots@.len() + d]@ == path_join(exe_dirs@[d]@, repo_rel@));
            }
        }
    }
    out
}

/// `is_file` answered `answer` when asked about the path `c`.
pub open spec fn answered<F: Fn(&str) -> bool>(is_file: F, c: Seq<char>, answer: bool) -> bool {
    exists|s: &str| s@ == c && is_file.ensures((s,), answer)
}

/// `k` is the first of `cands` that `is_file` accepted, asking in order
/// and stopping at the first yes.
pub open spec fn first_accepted<F: Fn(&str) -> bool>(cands: Seq<Seq<char>>, is_file: F, k: int) -> bool {
    &&& 0 <= k < cands.len()
    &&& answered(is_file, cands[k], true)
    &&& forall|i: int| 0 <= i < k ==> answered(is_file, #[trigger] cands[i], false)
}

/// Pick the first candidate `is_file` accepts.
fn first_file<F: Fn(&str) -> bool>(cands: &Vec<String>, is_file: F) -> (r: Option<String>)
    requires
        forall|s: &str| #[trigger] is_file.requires((s,)),
    ensures
        match r {
            Some(p) => exists|k: int|
                first_accepted(cands@.map_values(|s: String| s@), is_file, k) && p@ == cands@[k]@,
            None => forall|i: int| 0 <= i < cands@.len() ==> answered(is_file, #[trigger] cands@[i]@, false),
        },
{
    let ghost views = cands@.map_values(|s: String| s@);
    let mut i: usize = 0;
    while i < cands.len()
        invariant
            i <= cands@.len(),
            views == cands@.map_values(|s: String| s@),
            forall|s: &str| #[trigger] is_file.requires((s,)),
            forall|j: int| 0 <= j < i ==> answered(is_file, #[trigger] cands@[j]@, false),
        decreases cands@.len() - i,
    {
        let c = cands[i].as_str();
        let yes = is_file(c);
        if yes {
            assert(answered(is_file, views[i as int], true));
            assert forall|j: int| 0 <= j < i implies answered(is_file, #[trigger] views[j], false) by {
                assert(views[j] == cands@[j]@);
            }
            assert(first_accepted(views, is_file, i as int));
            return Some(cands[i].clone());
        }
        assert(answered(is_file, cands@[i as int]@, false));
        i = i + 1;
    }
    None
}

/// Locate the master copy of the relay: staged under `roots`, or in a
/// checkout above the executable (`exe_dirs`, its directory first).
pub fn resolve_relay<F: Fn(&str) -> bool>(roots: &[String], exe_dirs: &[String], is_file: F) -> (r: Option<String>)
    requires
        forall|s: &str| #[trigger] is_file.requires((s,)),
    ensures
        ({
            let cands = helper_candidates(
                RELAY_BIN@,
                REPO_RELAY@,
                roots@.map_values(|s: String| s@),
                exe_dirs@.map_values(|s: String| s@),
            );
            match r {
                Some(p) => exists|k: int| first_accepted(cands, is_file, k) && p@ == cands[k],
                None => forall|i: int| 0 <= i < cands.len() ==> answered(is_file, #[trigger] cands[i], false),
            }
        }),
{
    let cands = candidates(RELAY_BIN, REPO_RELAY, roots, exe_dirs);
    first_file(&cands, is_file)
}

/// Locate the master copy of the truck-sim plugin, as [`resolve_relay`]
/// does the relay.
pub fn resolve_scs<F: Fn(&str) -> bool>(roots: &[String], exe_dirs: &[String], is_file: F) -> (r: Option<String>)
    requires
        forall|s: &str| #[trigger] is_file.requires((s,)),
    ensures
        ({
            let cands = helper_candidates(
                SCS_PLUGIN@,
                REPO_SCS@,
                roots@.map_values(|s: String| s@),
                exe_dirs@.map_values(|s: String| s@),
            );
            match r {
                Some(p) => exists|k: int| first_accepted(cands, is_file, k) && p@ == cands[k],
                None => forall|i: int| 0 <= i < cands.len() ==> answered(is_file, #[trigger] cands[i], false),
            }
        }),
{
    let cands = candidates(SCS_PLUGIN, REPO_SCS, roots, exe_dirs);
    first_file(&cands, is_file)
}

/// Whether the relay is already installed in the wine prefix `prefix`:
/// what `is_file` says of its target.
pub fn relay_installed_in<F: Fn(&str) -> bool>(prefix: &str, is_file: F) -> (r: bool)
    requires
        forall|s: &str| #[trigger] is_file.requires((s,)),
    ensures
        answered(is_file, path_join(path_join(prefix@, PREFIX_RELAY_DIR@), RELAY_BIN@), r),
{
    let target = relay_target(prefix);
    let t = target.as_str();
    let r = is_file(t);
    assert(t@ == path_join(path_join(prefix@, PREFIX_RELAY_DIR@), RELAY_BIN@) && is_file.ensures(
        (t,),
        r,
    ));
    r
}

/// Whether the plugin is already installed in the game installation
/// `game_dir`: what `is_file` says of its target.
pub fn scs_installed_in<F: Fn(&str) -> bool>(game_dir: &str, is_file: F) -> (r: bool)
    requires
        forall|s: &str| #[trigger] is_file.requires((s,)),
    ensures
        answered(is_file, path_join(path_join(game_dir@, SCS_PLUGIN_DIR@), SCS_PLUGIN@), r),
{
    let target = scs_target(game_dir);
    let t = target.as_str();
    let r = is_file(t);
    assert(t@ == path_join(path_join(game_dir@, SCS_PLUGIN_DIR@), SCS_PLUGIN@) && is_file.ensures(
        (t,),
        r,
    ));
    r
}

/// What an install did, so a front-end can say something true.
#[derive(Debug, Clone, Copy, PartialEq, Eq, Structural)]
pub enum Installed {
    /// Copied for the first time.
    Fresh,
    /// Replaced an existing copy (an upgrade).
    Replaced,
}

/// The outcome of placing a copy where one did (`existed`) or did not
/// exist: installs always overwrite, since nothing there is user-authored.
pub fn install_outcome(existed: bool) -> (r: Installed)
    ensures
        r == (if existed {
            Installed::Replaced
        } else {
            Installed::Fresh
        }),
{
    if existed {
        Installed::Replaced
    } else {
        Installed::Fresh
    }
}

} // verus!
