use logi_wheel::relay::{game_ids, is_wire_id, relay_port, DEFAULT_PORT};
use logi_wheel::telemetry_helpers::{needs_relay, needs_scs_plugin, relay_game_ids};

#[test]
fn every_relay_game_id_is_a_real_wire_id() {
    for id in relay_game_ids() {
        assert!(game_ids().contains(&id), "{id} is offered the relay but is not a relay wire id");
        assert!(is_wire_id(id));
    }
}

#[test]
fn the_truck_sims_are_plugin_fed_not_relay_fed() {
    for id in ["ets2", "ats"] {
        assert!(game_ids().contains(&id), "{id} is a wire id");
        assert!(!needs_relay(id), "{id} must not be offered the relay");
        assert!(needs_scs_plugin(id), "{id} is fed by the plugin");
    }
    assert!(!needs_scs_plugin("acc"));
    assert!(needs_relay("acc"));
}

#[test]
fn a_udp_game_needs_no_helper_at_all() {
    for id in ["dirt-rally-2", "codemasters", "ams2-pcars2", "f1", "beamng", "ea-wrc"] {
        assert!(!needs_relay(id), "{id} is heard over UDP");
        assert!(!needs_scs_plugin(id), "{id} is heard over UDP");
    }
}

// --- beyond the original's cases ---

#[test]
fn every_wire_id_is_fed_by_exactly_one_helper() {
    for id in game_ids() {
        assert!(needs_relay(id) != needs_scs_plugin(id), "{id}");
    }
    assert!(!is_wire_id("beamng"));
    assert!(!is_wire_id("ETS2"), "wire ids are matched exactly");
    assert_eq!(DEFAULT_PORT, 20780);
}

#[test]
fn relay_port_takes_a_nonzero_u16_override_and_else_the_default() {
    assert_eq!(relay_port(None), DEFAULT_PORT);
    assert_eq!(relay_port(Some("20781")), 20781);
    assert_eq!(relay_port(Some("+9000")), 9000);
    assert_eq!(relay_port(Some("65535")), 65535);
    assert_eq!(relay_port(Some("0")), DEFAULT_PORT);
    assert_eq!(relay_port(Some("65536")), DEFAULT_PORT);
    assert_eq!(relay_port(Some("-1")), DEFAULT_PORT);
    assert_eq!(relay_port(Some("-0")), DEFAULT_PORT);
    assert_eq!(relay_port(Some("")), DEFAULT_PORT);
    assert_eq!(relay_port(Some(" 80")), DEFAULT_PORT);
    assert_eq!(relay_port(Some("80x")), DEFAULT_PORT);
    assert_eq!(relay_port(Some("99999999999999999999999")), DEFAULT_PORT);
}
