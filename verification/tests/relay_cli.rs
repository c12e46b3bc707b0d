use logi_wheel::relay_cli::{
    choose_mode, parse_args, prerequisite_notes, unknown_argument_message, unknown_game_message, Mode, StreamState,
};

fn args(list: &[&str]) -> Vec<String> {
    list.iter().map(|s| s.to_string()).collect()
}

#[test]
fn game_id_resolves_to_its_section() {
    let a = parse_args(&args(&["--game", "iracing", "--dump", "d.bin"])).unwrap();
    assert_eq!(a.section.as_deref(), Some("Local\\IRSDKMemMapFileName"));
    assert_eq!(a.dump.as_deref(), Some("d.bin"));
}

#[test]
fn explicit_section_wins_over_nothing() {
    let a = parse_args(&args(&["--section", "$R3E", "--dump", "x"])).unwrap();
    assert_eq!(a.section.as_deref(), Some("$R3E"));
}

#[test]
fn unknown_game_and_missing_values_are_errors() {
    assert!(parse_args(&args(&["--game", "acc"])).is_err());
    assert!(parse_args(&args(&["--game"])).is_err());
    assert!(parse_args(&args(&["--dump"])).is_err());
    assert!(parse_args(&args(&["--frobnicate"])).is_err());
}

#[test]
fn help_is_the_empty_error() {
    assert_eq!(parse_args(&args(&["--help"])).err().unwrap(), "");
}

// --- beyond the original's cases ---

#[test]
fn the_errors_say_what_was_wrong() {
    assert_eq!(parse_args(&args(&["--game"])).err().unwrap(), "--game needs a game id");
    assert_eq!(parse_args(&args(&["--section"])).err().unwrap(), "--section needs a name");
    assert_eq!(parse_args(&args(&["--dump"])).err().unwrap(), "--dump needs a file path");
    assert_eq!(parse_args(&args(&["-h"])).err().unwrap(), "");
    assert_eq!(
        parse_args(&args(&["--game", "acc"])).err().unwrap(),
        "unknown game \"acc\" (known: iracing, raceroom, assetto, lmu, rf2)"
    );
    assert_eq!(parse_args(&args(&["--frobnicate"])).err().unwrap(), "unknown argument \"--frobnicate\"");
    assert_eq!(unknown_game_message("\"x\""), "unknown game \"x\" (known: iracing, raceroom, assetto, lmu, rf2)");
    assert_eq!(unknown_argument_message("\"y\""), "unknown argument \"y\"");
}

#[test]
fn a_game_brings_its_second_section_and_its_notes() {
    let a = parse_args(&args(&["--game", "ASSETTO"])).unwrap();
    assert_eq!(a.section.as_deref(), Some("Local\\acpmf_physics"));
    assert_eq!(a.aux.as_deref(), Some("Local\\acpmf_static"));
    assert_eq!(a.game, Some("assetto"));
    assert!(a.notes.is_empty());

    let b = parse_args(&args(&["--game", "lmu"])).unwrap();
    assert_eq!(
        b.notes,
        vec!["note for Le Mans Ultimate: needs the community rF2SharedMemoryMapPlugin in the game's Plugins directory"]
    );
}

#[test]
fn a_named_section_drops_what_a_game_set_up() {
    let a = parse_args(&args(&["--game", "assetto", "--section", "Local\\other"])).unwrap();
    assert_eq!(a.section.as_deref(), Some("Local\\other"));
    assert_eq!(a.aux, None);
    assert_eq!(a.game, None);
    let b = parse_args(&args(&[])).unwrap();
    assert_eq!(b.section, None);
}

#[test]
fn the_mode_follows_the_arguments() {
    let m = choose_mode(parse_args(&args(&[])).unwrap());
    assert!(matches!(m, Mode::Usage));

    let m = choose_mode(parse_args(&args(&["--game", "rf2", "--dump", "f.bin"])).unwrap());
    assert!(matches!(m, Mode::Dump { ref section, ref path } if section == "$rFactor2SMMP_Telemetry$" && path == "f.bin"));

    let m = choose_mode(parse_args(&args(&["--game", "assetto"])).unwrap());
    assert!(matches!(m, Mode::Stream { ref section, ref aux, game }
        if section == "Local\\acpmf_physics" && aux.as_deref() == Some("Local\\acpmf_static") && game == "assetto"));

    let m = choose_mode(parse_args(&args(&["--game", "lmu"])).unwrap());
    assert!(matches!(m, Mode::NotBuilt { ref section } if section == "$rFactor2SMMP_Telemetry$"));

    let m = choose_mode(parse_args(&args(&["--section", "$R3E"])).unwrap());
    assert!(matches!(m, Mode::NotBuilt { ref section } if section == "$R3E"), "a bare section is never decoded");
}

#[test]
fn an_unreadable_section_is_reported_once_until_it_comes_back() {
    let mut s = StreamState::new();
    assert!(s.read_failed());
    assert!(!s.read_failed());
    assert!(!s.read_failed());
    s.read_succeeded();
    assert!(s.read_failed());
}

#[test]
fn the_hyphenated_assetto_corsa_id_streams_like_assetto() {
    let a = parse_args(&args(&["--game", "assetto-corsa"])).unwrap();
    assert_eq!(a.section.as_deref(), Some("Local\\acpmf_physics"));
    assert_eq!(a.aux.as_deref(), Some("Local\\acpmf_static"));
    assert_eq!(a.game, Some("assetto"));
    assert_eq!(a.dump, None);
}

#[test]
fn prerequisite_notes_are_kept_when_a_later_argument_fails() {
    let argv = args(&["--game", "lmu", "--frobnicate"]);
    assert!(parse_args(&argv).is_err());
    let notes = prerequisite_notes(&argv);
    assert_eq!(notes.len(), 1);
    assert!(notes[0].starts_with("note for Le Mans Ultimate: "));
    let ok = args(&["--game", "rf2", "--dump", "d.bin"]);
    assert_eq!(prerequisite_notes(&ok), parse_args(&ok).unwrap().notes);
    assert!(prerequisite_notes(&args(&["--game", "iracing"])).is_empty());
    assert!(prerequisite_notes(&args(&["--help", "--game", "lmu"])).is_empty());
}
