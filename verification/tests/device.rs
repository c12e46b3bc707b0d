use logi_wheel::device::{classify_wheel_dir, model_from_pid, pid_from_hid_name, Device, WheelModel};
use logi_wheel::setting::{classic_registry, registry, Error, IoError, Mode, SettingSpec, Value};
use logi_wheel::sysfs::{FakeSysfs, SysfsIo};

fn dev() -> Device<FakeSysfs> {
    let mut fs = FakeSysfs::new();
    fs.set("wheel_range", "900");
    fs.set("wheel_mode", "desktop");
    fs.set("wheel_serial", "2538WDQ0M9X8");
    fs.set("wheel_sensitivity", "50");
    fs.set("wheel_texture_route", "tf");
    Device::with_io(fs)
}

/// Whether `a` and `b` are the same registry, by content (attr names, in
/// order).
fn same_registry(a: &[SettingSpec], b: &[SettingSpec]) -> bool {
    a.iter().map(|s| s.attr).eq(b.iter().map(|s| s.attr))
}

#[test]
fn reads_typed_value() {
    assert_eq!(dev().read("wheel_range").unwrap(), Value::Int(900));
}

#[test]
fn texture_route_word_parses_to_enum() {
    // driver reports "tf"; registry models it as Enum index 1
    assert_eq!(dev().read("wheel_texture_route").unwrap(), Value::Enum(1));
}

#[test]
fn action_attrs_read_as_trigger_not_permission_error() {
    let mut fs = FakeSysfs::new();
    fs.set_errno("wheel_led_apply", 13); // EACCES if it tried to read
    let d = Device::with_io(fs);
    assert_eq!(d.read("wheel_led_apply").unwrap(), Value::Trigger);
    // even with the file entirely absent
    assert_eq!(d.read("wheel_calibrate_here").unwrap(), Value::Trigger);
}

#[test]
fn firmware_info_is_single_line() {
    let mut fs = FakeSysfs::new();
    fs.set("wheel_mode", "desktop");
    fs.set("wheel_serial", "X");
    fs.set("wheel_firmware", "base: U1 65.04.B0039\nmotor: SC 02.01.B0042\n");
    let info = Device::with_io(fs).info().unwrap();
    assert!(!info.firmware.contains('\n'), "firmware: {:?}", info.firmware);
    assert_eq!(info.firmware, "base: U1 65.04.B0039 / motor: SC 02.01.B0042");
}

#[test]
fn writes_valid_value() {
    let mut d = dev();
    d.write("wheel_range", &Value::Int(540)).unwrap();
    assert_eq!(d.read("wheel_range").unwrap(), Value::Int(540));
}

#[test]
fn write_out_of_range_rejected_before_io() {
    let mut d = dev();
    assert!(matches!(d.write("wheel_range", &Value::Int(45)), Err(Error::OutOfRange)));
    assert_eq!(d.read("wheel_range").unwrap(), Value::Int(900), "nothing was written");
}

#[test]
fn desktop_only_write_in_onboard_returns_wrong_mode() {
    let mut fs = FakeSysfs::new();
    fs.set("wheel_mode", "onboard");
    fs.set("wheel_sensitivity", "50");
    let mut d = Device::with_io(fs);
    assert!(matches!(
        d.write("wheel_sensitivity", &Value::Percent(10)),
        Err(Error::WrongMode { needed: Mode::Desktop })
    ));
}

#[test]
fn ensure_desktop_switches_mode() {
    let mut fs = FakeSysfs::new();
    fs.set("wheel_mode", "onboard");
    let mut d = Device::with_io(fs);
    d.ensure_desktop_mode().unwrap();
    assert_eq!(d.current_mode().unwrap(), Mode::Desktop);
}

#[test]
fn available_reflects_presence() {
    let d = dev();
    assert!(d.available("wheel_range"));
    assert!(!d.available("wheel_brake_force"));
}

#[test]
fn info_reads_identity() {
    let i = dev().info().unwrap();
    assert_eq!(i.serial, "2538WDQ0M9X8");
    assert_eq!(i.mode, Mode::Desktop);
}

#[test]
fn with_io_defaults_to_unknown_model_and_the_dd_registry() {
    let d = Device::with_io(FakeSysfs::new());
    assert_eq!(d.model(), WheelModel::Unknown);
    assert!(same_registry(&d.settings(), &registry()));
}

#[test]
fn a_g923_device_uses_the_classic_registry() {
    let mut fs = FakeSysfs::new();
    fs.set("range", "900");
    fs.set("gain", "65535");
    fs.set("autocenter", "0");
    fs.set("combine_pedals", "0");
    let d = Device::with_io_and_model(fs, WheelModel::G923);
    assert!(same_registry(&d.settings(), &classic_registry()));
    assert_eq!(d.read("range").unwrap(), Value::Int(900));
    assert_eq!(d.read("gain").unwrap(), Value::Int(65535));
    assert_eq!(d.read("combine_pedals").unwrap(), Value::Enum(0));
}

#[test]
fn a_g923_device_writes_and_validates_its_settings() {
    let mut fs = FakeSysfs::new();
    fs.set("range", "900");
    fs.set("gain", "0");
    fs.set("autocenter", "0");
    fs.set("combine_pedals", "0");
    let mut d = Device::with_io_and_model(fs, WheelModel::G923);
    d.write("range", &Value::Int(540)).unwrap();
    assert_eq!(d.read("range").unwrap(), Value::Int(540));
    assert!(matches!(d.write("range", &Value::Int(39)), Err(Error::OutOfRange)));
    assert!(matches!(d.write("range", &Value::Int(901)), Err(Error::OutOfRange)));
    d.write("combine_pedals", &Value::Enum(2)).unwrap();
    assert_eq!(d.read("combine_pedals").unwrap(), Value::Enum(2));
}

#[test]
fn a_g923_device_has_no_dd_settings_available() {
    let d = Device::with_io_and_model(FakeSysfs::new(), WheelModel::G923);
    assert!(!d.settings().iter().any(|s| s.attr.starts_with("wheel_")));
    assert!(d.settings().iter().any(|s| s.attr == "range"));
}

#[test]
fn a_classic_wheel_with_no_wheel_mode_reads_as_desktop() {
    let mut fs = FakeSysfs::new();
    fs.set("range", "900");
    let d = Device::with_io_and_model(fs, WheelModel::G923);
    assert_eq!(d.current_mode().unwrap(), Mode::Desktop);
    let info = d.info().unwrap();
    assert_eq!(info.mode, Mode::Desktop);
    assert_eq!(info.model, WheelModel::G923);
    assert_eq!(info.serial, "");
    assert_eq!(info.firmware, "");
}

#[test]
fn ensure_desktop_mode_is_a_no_op_without_wheel_mode() {
    let mut d = Device::with_io_and_model(FakeSysfs::new(), WheelModel::G923);
    d.ensure_desktop_mode().unwrap();
}

#[test]
fn spec_resolves_attrs_from_either_registry() {
    assert_eq!(Device::<FakeSysfs>::spec("wheel_range").unwrap().attr, "wheel_range");
    assert_eq!(Device::<FakeSysfs>::spec("range").unwrap().attr, "range");
    assert_eq!(Device::<FakeSysfs>::spec("combine_pedals").unwrap().attr, "combine_pedals");
    assert!(Device::<FakeSysfs>::spec("nonexistent").is_none());
}

#[test]
fn model_from_pid_maps_the_known_product_ids() {
    assert_eq!(model_from_pid(0xc276), WheelModel::Rs50);
    assert_eq!(model_from_pid(0xc272), WheelModel::GPro);
    assert_eq!(model_from_pid(0xc268), WheelModel::GPro);
    assert_eq!(model_from_pid(0xc266), WheelModel::G923);
    assert_eq!(model_from_pid(0xc26e), WheelModel::G923);
    assert_eq!(model_from_pid(0x1234), WheelModel::Unknown);
}

// --- beyond the original's cases ---

#[test]
fn a_missing_wheel_reads_as_no_wheel() {
    let d = Device::with_io(FakeSysfs::new());
    assert_eq!(d.read("wheel_range"), Err(Error::NoWheel));
    assert_eq!(d.current_mode(), Err(Error::NoWheel));
}

#[test]
fn errno_values_map_to_settings_errors() {
    let mut fs = FakeSysfs::new();
    fs.set_errno("wheel_range", 1);
    fs.set_errno("wheel_mode", 19);
    fs.set_errno("wheel_sensitivity", 22);
    fs.set_errno("wheel_texture_route", 5);
    let d = Device::with_io(fs);
    assert_eq!(d.read("wheel_range"), Err(Error::Permission));
    assert_eq!(d.read("wheel_mode"), Err(Error::NoWheel));
    assert_eq!(d.read("wheel_sensitivity"), Err(Error::Invalid));
    assert_eq!(d.read("wheel_texture_route"), Err(Error::Io(5)));
}

#[test]
fn unknown_and_unparsable_settings_are_invalid() {
    let mut fs = FakeSysfs::new();
    fs.set("wheel_range", "nine hundred");
    let d = Device::with_io(fs);
    assert_eq!(d.read("wheel_brake_force"), Err(Error::Invalid));
    assert_eq!(d.read("wheel_range"), Err(Error::Invalid));
}

#[test]
fn action_attrs_are_written_as_one() {
    let mut fs = FakeSysfs::new();
    fs.set("wheel_mode", "desktop");
    fs.set("wheel_led_apply", "");
    let mut d = Device::with_io(fs);
    d.write("wheel_led_apply", &Value::Trigger).unwrap();
    assert!(matches!(d.write("wheel_led_apply", &Value::Int(1)), Err(Error::Invalid)));
}

#[test]
fn a_percent_and_an_enum_write_as_their_text() {
    let mut d = dev();
    d.write("wheel_sensitivity", &Value::Percent(75)).unwrap();
    assert_eq!(d.read("wheel_sensitivity").unwrap(), Value::Percent(75));
    d.write("wheel_texture_route", &Value::Enum(0)).unwrap();
    assert_eq!(d.read("wheel_texture_route").unwrap(), Value::Enum(0));
    assert!(matches!(d.write("wheel_sensitivity", &Value::Percent(101)), Err(Error::OutOfRange)));
    assert!(matches!(d.write("wheel_texture_route", &Value::Enum(2)), Err(Error::OutOfRange)));
}

#[test]
fn a_fake_directory_records_its_writes() {
    let mut fs = FakeSysfs::new();
    assert!(!fs.has("range"));
    fs.set("range", "900");
    assert!(fs.has("range"));
    assert_eq!(fs.read("range").unwrap(), "900");
    fs.write("range", "540").unwrap();
    assert_eq!(fs.read("range").unwrap(), "540");
    fs.set_errno("gain", 13);
    assert_eq!(fs.read("gain"), Err(IoError::Os(13)));
    assert_eq!(fs.read("nothing"), Err(IoError::NotFound));
}

#[test]
fn the_product_id_is_read_from_the_kernels_hid_name() {
    assert_eq!(pid_from_hid_name("0003:046D:C266.0002"), Some(0xc266));
    assert_eq!(pid_from_hid_name("0003:046D:c276.000A"), Some(0xc276));
    assert_eq!(pid_from_hid_name("0003:046D:C26E"), Some(0xc26e));
    assert_eq!(pid_from_hid_name("0003:046D:C266:extra"), Some(0xc266));
    assert_eq!(pid_from_hid_name("classic"), None, "a dev-override directory has no such name");
    assert_eq!(pid_from_hid_name("0003:046D"), None);
    assert_eq!(pid_from_hid_name("0003:046D:.0002"), None);
    assert_eq!(pid_from_hid_name("0003:046D:1C266.0002"), None, "more than 16 bits");
    assert_eq!(pid_from_hid_name("0003:046D:XYZ.0002"), None);
}

#[test]
fn discovery_adopts_only_what_looks_like_a_wheel() {
    // A dev-override directory is trusted by its attribute files alone.
    assert_eq!(classify_wheel_dir(true, true, false, None), Some(WheelModel::Unknown));
    assert_eq!(classify_wheel_dir(true, false, true, None), Some(WheelModel::G923));
    assert_eq!(classify_wheel_dir(true, false, false, None), None);
    // A real HID directory is branded by its product id.
    assert_eq!(classify_wheel_dir(false, true, false, Some(0xc276)), Some(WheelModel::Rs50));
    assert_eq!(classify_wheel_dir(false, true, false, None), Some(WheelModel::Unknown));
    // The classic attribute set counts only when the id confirms a G923.
    assert_eq!(classify_wheel_dir(false, false, true, Some(0xc266)), Some(WheelModel::G923));
    assert_eq!(classify_wheel_dir(false, false, true, Some(0x1234)), None);
    assert_eq!(classify_wheel_dir(false, false, true, None), None);
}

/// A directory that answers every read with a fixed text and counts the
/// writes made to it.
struct CountingSysfs {
    text: &'static str,
    writes: std::rc::Rc<std::cell::Cell<usize>>,
}

impl SysfsIo for CountingSysfs {
    fn has(&self, _attr: &str) -> bool {
        true
    }

    fn read(&self, _attr: &str) -> Result<String, IoError> {
        Ok(self.text.to_string())
    }

    fn write(&mut self, _attr: &str, _value: &str) -> Result<(), IoError> {
        self.writes.set(self.writes.get() + 1);
        Ok(())
    }
}

#[test]
fn refused_writes_and_a_g923_mode_switch_never_reach_the_directory() {
    let writes = std::rc::Rc::new(std::cell::Cell::new(0));
    let io = CountingSysfs { text: "onboard", writes: writes.clone() };
    let mut g923 = Device::with_io_and_model(io, WheelModel::G923);
    assert_eq!(g923.current_mode(), Ok(Mode::Desktop));
    assert_eq!(g923.ensure_desktop_mode(), Ok(()));
    assert_eq!(writes.get(), 0);

    let io = CountingSysfs { text: "onboard", writes: writes.clone() };
    let mut rs50 = Device::with_io_and_model(io, WheelModel::Rs50);
    assert_eq!(rs50.read("no_such_attr"), Err(Error::Invalid));
    assert_eq!(rs50.write("no_such_attr", &Value::Int(1)), Err(Error::Invalid));
    assert_eq!(rs50.write("wheel_range", &Value::Int(10)), Err(Error::OutOfRange));
    assert_eq!(rs50.write("wheel_sensitivity", &Value::Percent(50)), Err(Error::WrongMode { needed: Mode::Desktop }));
    assert_eq!(rs50.read("wheel_led_apply"), Ok(Value::Trigger));
    assert_eq!(writes.get(), 0);
    assert_eq!(rs50.ensure_desktop_mode(), Ok(()));
    assert_eq!(writes.get(), 1);
}
