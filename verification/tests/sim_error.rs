use logi_wheel::error::Error;

#[test]
fn the_refusal_says_what_to_do_about_it() {
    let msg = Error::Unstabilised.message();
    assert!(msg.contains("refusing to run"), "says it refused: {msg}");
    assert!(msg.contains("force-feedback"), "names the cause: {msg}");
    assert!(msg.contains("/dev/input/event"), "names what to check: {msg}");
    assert!(msg.contains("#57"), "points at the explanation: {msg}");
}

// --- beyond the original's cases ---

#[test]
fn each_error_reads_as_its_own_sentence() {
    assert_eq!(Error::NoWheel.message(), "no supported wheel found");
    assert_eq!(Error::Stream("LogiTfPlay".to_string(), -3).message(), "LogiTfPlay failed (rc -3)");
    assert_eq!(Error::Stream("open".to_string(), 0).message(), "open failed (rc 0)");
    let io = Error::Io("opening /dev/input/event7".to_string(), std::io::Error::other("gone"));
    assert_eq!(io.message(), "opening /dev/input/event7: gone");
    assert_eq!(io.message_with("anything"), "opening /dev/input/event7: anything");
}
