use std::collections::HashSet;

use logi_wheel::telemetry_helpers::{
    install_outcome, join_path, relay_command, relay_installed_in, relay_target, resolve_relay, resolve_scs,
    scs_appids, scs_installed_in, scs_target, Installed, RELAY_BIN, REPO_RELAY, REPO_SCS, SCS_PLUGIN,
};

/// The directories above `exe`, nearest first, as the app derives them.
fn dirs_above(exe: &str) -> Vec<String> {
    let mut out = Vec::new();
    let mut p = std::path::Path::new(exe).parent();
    while let Some(d) = p {
        out.push(d.to_string_lossy().into_owned());
        p = d.parent();
    }
    out
}

fn files(list: &[String]) -> HashSet<String> {
    list.iter().cloned().collect()
}

#[test]
fn the_relay_goes_to_the_drive_root_of_the_prefix() {
    let prefix = "/games/compatdata/805550/pfx";
    assert_eq!(relay_target(prefix), "/games/compatdata/805550/pfx/drive_c/logi-tf-relay.exe");
}

#[test]
fn the_relay_command_names_the_prefix_the_binary_and_the_game() {
    let cmd = relay_command("/games/pfx", "acc");
    assert!(cmd.contains("WINEPREFIX=/games/pfx"), "{cmd}");
    assert!(cmd.contains("--game acc"), "{cmd}");
    assert!(cmd.contains(RELAY_BIN), "{cmd}");
}

#[test]
fn the_truck_sims_are_listed_because_nothing_else_would_find_them() {
    let ids: Vec<u32> = scs_appids().iter().map(|(id, _)| *id).collect();
    assert!(ids.contains(&227300), "Euro Truck Simulator 2");
    assert!(ids.contains(&270880), "American Truck Simulator");
}

#[test]
fn a_packaged_copy_is_preferred_over_a_checkout() {
    let exe = "/root/repo/userspace/logi-wheel/target/release/logi-wheel-gui";
    let present = files(&[
        format!("/root/share/{RELAY_BIN}"),
        format!("/root/repo/{REPO_RELAY}"),
    ]);
    let found = resolve_relay(&["/root/share".to_string()], &dirs_above(exe), |p: &str| present.contains(p));
    assert_eq!(found.as_deref(), Some("/root/share/logi-tf-relay.exe"));
}

#[test]
fn a_checkout_is_found_when_nothing_is_packaged() {
    let exe = "/root/repo/userspace/logi-wheel/target/release/logi-wheel-gui";
    let present = files(&[format!("/root/repo/{REPO_RELAY}"), format!("/root/repo/{REPO_SCS}")]);
    let found = resolve_relay(&["/root/nowhere".to_string()], &dirs_above(exe), |p: &str| present.contains(p));
    assert_eq!(found.as_deref(), Some("/root/repo/tools/logi-tf-relay.exe"));
    let plugin = resolve_scs(&["/root/nowhere".to_string()], &dirs_above(exe), |p: &str| present.contains(p));
    assert_eq!(plugin.as_deref(), Some("/root/repo/userspace/logi-wheel/target/release/liblogi_tf_scs.so"));
}

#[test]
fn nothing_anywhere_resolves_to_none() {
    let exe = "/root/bin/logi-wheel-gui";
    assert!(resolve_relay(&["/root/nope".to_string()], &dirs_above(exe), |_: &str| false).is_none());
}

// --- beyond the original's cases ---

#[test]
fn the_walk_up_stops_after_eight_directories() {
    // "/r/a" is the eighth directory above the executable, "/r" the ninth.
    let exe = "/r/a/b/c/d/e/f/g/bin/tool";
    let present = files(&[format!("/r/{REPO_RELAY}"), format!("/r/a/{REPO_RELAY}")]);
    let found = resolve_relay(&[], &dirs_above(exe), |p: &str| present.contains(p));
    assert_eq!(found.as_deref(), Some("/r/a/tools/logi-tf-relay.exe"), "the nearest within reach");
    let only_far = files(&[format!("/r/{REPO_RELAY}")]);
    assert!(resolve_relay(&[], &dirs_above(exe), |p: &str| only_far.contains(p)).is_none());
}

#[test]
fn the_plugin_goes_under_the_games_plugin_directory() {
    let game = "/steam/common/Euro Truck Simulator 2";
    assert_eq!(scs_target(game), "/steam/common/Euro Truck Simulator 2/bin/linux_x64/plugins/liblogi_tf_scs.so");
    assert!(scs_target(game).ends_with(SCS_PLUGIN));
}

#[test]
fn installed_means_the_target_file_is_there() {
    let present = files(&["/pfx/drive_c/logi-tf-relay.exe".to_string()]);
    assert!(relay_installed_in("/pfx", |p: &str| present.contains(p)));
    assert!(!relay_installed_in("/other", |p: &str| present.contains(p)));
    assert!(!scs_installed_in("/game", |p: &str| present.contains(p)));
    let plugin = files(&["/game/bin/linux_x64/plugins/liblogi_tf_scs.so".to_string()]);
    assert!(scs_installed_in("/game", |p: &str| plugin.contains(p)));
}

#[test]
fn reinstalling_reports_a_replacement() {
    assert_eq!(install_outcome(false), Installed::Fresh);
    assert_eq!(install_outcome(true), Installed::Replaced);
}

#[test]
fn paths_join_with_exactly_one_separator() {
    assert_eq!(join_path("/a", "b"), "/a/b");
    assert_eq!(join_path("/a/", "b"), "/a/b");
    assert_eq!(join_path("", "b"), "b");
    assert_eq!(relay_command("/p", "lmu"), "WINEPREFIX=/p wine c:\\\\logi-tf-relay.exe --game lmu");
}
