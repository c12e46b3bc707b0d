//! The connected wheel, seen through its sysfs attributes: typed reads and
//! validated, mode-gated writes of its settings.

use vstd::prelude::*;
use vstd::string::*;
use crate::setting::{
    check_value, classic_registry, classic_settings, dd_settings, find_in, io_error_meaning,
    lookup_setting, map_io_error, parse_value, registry, value_text, word_index, Access, Error,
    Kind, Mode, ModeReq, SettingSpec, Value, Words,
};
use crate::sysfs::{entry_result, read_result, SysfsIo, WriteRecord};
use crate::text::{
    after_char, after_char_str, before_char, before_char_str, dec, dec_int, lemma_parse_dec_int,
    parse_hex_u16, parse_hex_u16_str, parse_i64, replace_char, replace_char_str, str_eq, trim, trim_str,
};
use crate::setting::IoError;

verus! {

/// Which physical wheel is connected. `Rs50` and `GPro` share the
/// direct-drive `wheel_*` settings and differ only in branding; `G923` has
/// the classic settings instead; `Unknown` (nothing pinned it to a product
/// id) is treated as a direct-drive wheel.
#[derive(Debug, Clone, Copy, PartialEq, Eq, Structural)]
pub enum WheelModel {
    Unknown,
    Rs50,
    GPro,
    G923,
}

impl Default for WheelModel {
    fn default() -> (r: WheelModel)
        ensures
            r == WheelModel::Unknown,
    {
        WheelModel::Unknown
    }
}

/// The USB product ids this crate recognises.
pub open spec fn pid_model(pid: u16) -> WheelModel {
    if pid == 0xc276 {
        WheelModel::Rs50
    } else if pid == 0xc272 || pid == 0xc268 {
        WheelModel::GPro
    } else if pid == 0xc266 || pid == 0xc26e {
        WheelModel::G923
    } else {
        WheelModel::Unknown
    }
}

/// The wheel model for a USB product id.
pub fn model_from_pid(pid: u16) -> (r: WheelModel)
    ensures
        r == pid_model(pid),
{
    match pid {
        0xc276 => WheelModel::Rs50,
        0xc272 | 0xc268 => WheelModel::GPro,
        0xc266 | 0xc26e => WheelModel::G923,
        _ => WheelModel::Unknown,
    }
}

/// What discovery makes of one candidate sysfs directory.
///
/// `wheel_range` marks the direct-drive driver's attribute set; the
/// classic `range`/`gain`/`autocenter` set marks a G923. A directory named
/// by the user (`dev_override`) cannot be checked against a product id, so
/// it is trusted: a direct-drive one is modelled `Unknown`, a classic one
/// `G923`. A real HID directory takes its model from its product id, and
/// its classic set only counts when that id confirms a G923. `None`: not a
/// wheel.
pub open spec fn wheel_dir_model(
    dev_override: bool,
    has_wheel_range: bool,
    classic_attrs: bool,
    pid: Option<u16>,
) -> Option<WheelModel> {
    if dev_override {
        if has_wheel_range {
            Some(WheelModel::Unknown)
        } else if classic_attrs {
            Some(WheelModel::G923)
        } else {
            None
        }
    } else if has_wheel_range {
        Some(
            match pid {
                Some(p) => pid_model(p),
                None => WheelModel::Unknown,
            },
        )
    } else if classic_attrs && (pid matches Some(p) && pid_model(p) == WheelModel::G923) {
        Some(WheelModel::G923)
    } else {
        None
    }
}

/// Decide whether a candidate directory is a wheel, and which.
pub fn classify_wheel_dir(
    dev_override: bool,
    has_wheel_range: bool,
    classic_attrs: bool,
    pid: Option<u16>,
) -> (r: Option<WheelModel>)
    ensures
        r == wheel_dir_model(dev_override, has_wheel_range, classic_attrs, pid),
        !dev_override && !has_wheel_range && classic_attrs ==> (r == Some(WheelModel::G923) <==> (pid == Some(0xc266u16)
            || pid == Some(0xc26eu16))),
{
    if dev_override {
        if has_wheel_range {
            Some(WheelModel::Unknown)
        } else if classic_attrs {
            Some(WheelModel::G923)
        } else {
            None
        }
    } else if has_wheel_range {
        match pid {
            Some(p) => Some(model_from_pid(p)),
            None => Some(WheelModel::default()),
        }
    } else {
        match pid {
            Some(p) => if classic_attrs && model_from_pid(p) == WheelModel::G923 {
                Some(WheelModel::G923)
            } else {
                None
            },
            None => None,
        }
    }
}

/// The product ids behind each model: 0xc276 an RS50; 0xc272 and 0xc268 a
/// G PRO; 0xc266 and 0xc26e a G923; every other id no known model.
pub proof fn lemma_pid_table(pid: u16)
    ensures
        pid_model(pid) == WheelModel::Rs50 <==> pid == 0xc276,
        pid_model(pid) == WheelModel::GPro <==> (pid == 0xc272 || pid == 0xc268),
        pid_model(pid) == WheelModel::G923 <==> (pid == 0xc266 || pid == 0xc26e),
        pid_model(pid) == WheelModel::Unknown <==> !(pid == 0xc276 || pid == 0xc272 || pid == 0xc268
            || pid == 0xc266 || pid == 0xc26e),
{
}

/// Discovery adopts a directory as the product ids say: a real HID
/// directory with the direct-drive attribute set is the model its product
/// id maps to (unknown without one); one with only the classic attribute
/// set is a G923 exactly when its product id maps to a G923, and otherwise
/// not a wheel; a directory with neither set is never a wheel; and a
/// directory named by the user is trusted by its attribute set alone.
pub proof fn lemma_discovery_follows_the_pid(
    dev_override: bool,
    has_wheel_range: bool,
    classic_attrs: bool,
    pid: Option<u16>,
)
    ensures
        !dev_override && has_wheel_range ==> wheel_dir_model(dev_override, has_wheel_range, classic_attrs, pid)
            == Some(
            match pid {
                Some(p) => pid_model(p),
                None => WheelModel::Unknown,
            },
        ),
        !dev_override && !has_wheel_range && classic_attrs ==> (wheel_dir_model(
            dev_override,
            has_wheel_range,
            classic_attrs,
            pid,
        ) == Some(WheelModel::G923) <==> (pid is Some && pid_model(pid->Some_0) == WheelModel::G923)),
        !dev_override && !has_wheel_range && classic_attrs ==> (wheel_dir_model(
            dev_override,
            has_wheel_range,
            classic_attrs,
            pid,
        ) is None <==> !(pid is Some && pid_model(pid->Some_0) == WheelModel::G923)),
        !has_wheel_range && !classic_attrs ==> wheel_dir_model(dev_override, has_wheel_range, classic_attrs, pid)
            is None,
        dev_override && has_wheel_range ==> wheel_dir_model(dev_override, has_wheel_range, classic_attrs, pid)
            == Some(WheelModel::Unknown),
        dev_override && !has_wheel_range && classic_attrs ==> wheel_dir_model(
            dev_override,
            has_wheel_range,
            classic_attrs,
            pid,
        ) == Some(WheelModel::G923),
{
}

/// The product id in a HID device directory's name, which the kernel
/// writes `BUS:VID:PID.SEQ` (e.g. `0003:046D:C266.0002`): the third
/// `:`-separated field, up to its first `.`, read as hexadecimal. `None`
/// for a name of another shape.
pub open spec fn hid_name_pid(name: Seq<char>) -> Option<u16> {
    match after_char(name, ':') {
        None => None,
        Some(rest) => match after_char(rest, ':') {
            None => None,
            Some(tail) => parse_hex_u16(before_char(before_char(tail, ':'), '.')),
        },
    }
}

/// In `x`, then `c`, then anything, the first `c` is the one after `x`
/// when `x` holds none.
proof fn lemma_first_after(x: Seq<char>, c: char, rest: Seq<char>)
    requires
        !x.contains(c),
    ensures
        crate::text::first_index(x + seq![c] + rest, c) == Some(x.len() as int),
{
    let s = x + seq![c] + rest;
    assert forall|j: int| 0 <= j < x.len() implies s[j] != c by {
        assert(s[j] == x[j]);
    }
    assert(s[x.len() as int] == c);
    assert(crate::text::is_first(s, c, x.len() as int));
    let i = choose|i: int| crate::text::is_first(s, c, i);
    if i < x.len() {
        assert(s[i] == x[i]);
        assert(x.contains(c));
    }
}

/// A HID directory named `bus:vendor:product.instance` has as its product
/// id the product field read as hexadecimal, whatever the other fields
/// hold (none of them holding `:`, the product no `.`).
pub proof fn lemma_hid_name_fields(bus: Seq<char>, vendor: Seq<char>, product: Seq<char>, instance: Seq<char>)
    requires
        !bus.contains(':'),
        !vendor.contains(':'),
        !product.contains(':'),
        !product.contains('.'),
    ensures
        hid_name_pid(bus + seq![':'] + vendor + seq![':'] + product + seq!['.'] + instance) == parse_hex_u16(
            product,
        ),
{
    let tail = product + seq!['.'] + instance;
    let rest = vendor + seq![':'] + tail;
    let name = bus + seq![':'] + vendor + seq![':'] + product + seq!['.'] + instance;
    assert(name =~= bus + seq![':'] + rest);
    lemma_first_after(bus, ':', rest);
    assert(after_char(name, ':') == Some(rest)) by {
        assert(name.subrange(bus.len() as int + 1, name.len() as int) =~= rest);
    }
    lemma_first_after(vendor, ':', tail);
    assert(after_char(rest, ':') == Some(tail)) by {
        assert(rest.subrange(vendor.len() as int + 1, rest.len() as int) =~= tail);
    }
    let field = before_char(tail, ':');
    assert(field.len() >= product.len() + 1 && field.subrange(0, product.len() as int + 1) =~= product + seq!['.'])
        by {
        match crate::text::first_index(tail, ':') {
            Some(k) => {
                assert(crate::text::is_first(tail, ':', k)) by {
                    assert(exists|i: int| crate::text::is_first(tail, ':', i));
                }
                if k <= product.len() {
                    if k < product.len() {
                        assert(tail[k] == product[k]);
                        assert(product.contains(':'));
                    } else {
                        assert(tail[k] == '.');
                    }
                }
            },
            None => {},
        }
    }
    let more = field.subrange(product.len() as int + 1, field.len() as int);
    assert(field =~= product + seq!['.'] + more);
    lemma_first_after(product, '.', more);
    assert(before_char(field, '.') =~= product);
}

/// The product id in a HID device directory's name.
pub fn pid_from_hid_name(name: &str) -> (r: Option<u16>)
    ensures
        r == hid_name_pid(name@),
{
    let rest = match after_char_str(name, ':') {
        Some(r) => r,
        None => return None,
    };
    let tail = match after_char_str(rest, ':') {
        Some(t) => t,
        None => return None,
    };
    let field = before_char_str(tail, ':');
    let pid = before_char_str(field, '.');
    parse_hex_u16_str(pid)
}

/// Identity and state of the connected wheel.
pub struct DeviceInfo {
    pub serial: String,
    pub firmware: String,
    pub mode: Mode,
    pub model: WheelModel,
}

/// The connected wheel.
pub struct Device<S: SysfsIo> {
    io: S,
    model: WheelModel,
}

/// What `wheel_mode` says, on a wheel that has one: a classic wheel (the
/// G923) has no desktop/onboard split and always reads as desktop; on a
/// direct-drive wheel a failed read is an error (the wheel is gone).
pub open spec fn mode_of(model: WheelModel, files: Map<Seq<char>, Result<Seq<char>, IoError>>) -> Result<Mode, Error> {
    mode_from(model, read_result(files, "wheel_mode"@))
}

/// The mode of a wheel of `model` whose `wheel_mode` read gave `raw`.
pub open spec fn mode_from(model: WheelModel, raw: Result<Seq<char>, IoError>) -> Result<Mode, Error> {
    if model == WheelModel::G923 {
        Ok(Mode::Desktop)
    } else {
        match raw {
            Err(e) => Err(io_error_meaning(e)),
            Ok(raw) => if trim(raw) == "onboard"@ {
                Ok(Mode::Onboard)
            } else {
                Ok(Mode::Desktop)
            },
        }
    }
}

/// An attribute's text as a value of `kind`: a word-valued attribute
/// (`wheel_mode` reports words) maps a known word to its index, and
/// anything else is parsed as a number.
pub open spec fn value_from_text(kind: Kind, raw: Seq<char>) -> Result<Value, Error> {
    match kind {
        Kind::Enum(w) => match word_index(w.list(), trim(raw)) {
            Some(i) => Ok(Value::Enum(i as u8)),
            None => parse_value(kind, raw),
        },
        _ => parse_value(kind, raw),
    }
}

/// What reading the setting `attr` gives.
pub open spec fn setting_read(files: Map<Seq<char>, Result<Seq<char>, IoError>>, attr: Seq<char>) -> Result<Value, Error> {
    read_decision(attr, read_result(files, attr))
}

/// What reading the setting `attr` gives when reading its file gives
/// `raw` (a file that is not read at all, for a name that is no setting
/// or a trigger, does not matter).
pub open spec fn read_decision(attr: Seq<char>, raw: Result<Seq<char>, IoError>) -> Result<Value, Error> {
    match lookup_setting(attr) {
        None => Err(Error::Invalid),
        Some(s) => if s.access == Access::Action {
            // Write-only triggers read as the trigger, not as the
            // permission error reading their file gives.
            Ok(Value::Trigger)
        } else {
            match raw {
                Err(e) => Err(io_error_meaning(e)),
                Ok(raw) => value_from_text(s.kind, raw),
            }
        },
    }
}

/// Whether `s` is one of the two attributes written as words.
pub open spec fn written_as_word(s: SettingSpec) -> bool {
    s.attr@ == "wheel_mode"@ || s.attr@ == "wheel_texture_route"@
}

/// The text a valid value of setting `s` is written as.
pub open spec fn setting_text(s: SettingSpec, v: Value) -> Result<Seq<char>, Error> {
    match (s.kind, v) {
        (Kind::Enum(w), Value::Enum(i)) => if written_as_word(s) {
            if i < w.list().len() {
                Ok(w.list()[i as int])
            } else {
                Err(Error::OutOfRange)
            }
        } else {
            value_text(s.kind, v)
        },
        _ => value_text(s.kind, v),
    }
}

/// What writing `v` to `attr` sends to the device: the text, or the error
/// that stops the write before anything is sent (not a setting, read-only,
/// a value the setting rejects, the wheel in the wrong mode).
pub open spec fn setting_write(
    model: WheelModel,
    files: Map<Seq<char>, Result<Seq<char>, IoError>>,
    attr: Seq<char>,
    v: Value,
) -> Result<Seq<char>, Error> {
    write_decision(attr, v, mode_of(model, files))
}

/// What writing `v` to `attr` sends to the device, when the wheel's mode
/// reads as `mode` (which only a setting that needs a mode looks at).
pub open spec fn write_decision(attr: Seq<char>, v: Value, mode: Result<Mode, Error>) -> Result<Seq<char>, Error> {
    match lookup_setting(attr) {
        None => Err(Error::Invalid),
        Some(s) => if s.access == Access::ReadOnly {
            Err(Error::Invalid)
        } else {
            match check_value(s.kind, v) {
                Err(e) => Err(e),
                Ok(_) => match s.mode_req {
                    ModeReq::DesktopOnly => match mode {
                        Err(e) => Err(e),
                        Ok(m) => if m != Mode::Desktop {
                            Err(Error::WrongMode { needed: Mode::Desktop })
                        } else {
                            setting_text(s, v)
                        },
                    },
                    ModeReq::OnboardOnly => match mode {
                        Err(e) => Err(e),
                        Ok(m) => if m != Mode::Onboard {
                            Err(Error::WrongMode { needed: Mode::Onboard })
                        } else {
                            setting_text(s, v)
                        },
                    },
                    ModeReq::Any => setting_text(s, v),
                },
            }
        },
    }
}

/// A write's outcome as the caller sees it.
pub open spec fn write_outcome(r: Result<(), IoError>) -> Result<(), Error> {
    match r {
        Ok(()) => Ok(()),
        Err(e) => Err(io_error_meaning(e)),
    }
}

/// Where each setting name is found.
proof fn lemma_setting_names()
    ensures
        lookup_setting("wheel_range"@) == Some(dd_settings()[0]),
        lookup_setting("wheel_mode"@) == Some(dd_settings()[1]),
        lookup_setting("wheel_sensitivity"@) == Some(dd_settings()[2]),
        lookup_setting("wheel_texture_route"@) == Some(dd_settings()[3]),
        lookup_setting("wheel_led_apply"@) == Some(dd_settings()[4]),
        lookup_setting("wheel_calibrate_here"@) == Some(dd_settings()[5]),
        lookup_setting("range"@) == Some(classic_settings()[0]),
        lookup_setting("gain"@) == Some(classic_settings()[1]),
        lookup_setting("autocenter"@) == Some(classic_settings()[2]),
        lookup_setting("combine_pedals"@) == Some(classic_settings()[3]),
{
    reveal_strlit("wheel_mode");
    reveal_strlit("wheel_texture_route");
    reveal_strlit("wheel_range");
    reveal_strlit("wheel_sensitivity");
    reveal_strlit("wheel_led_apply");
    reveal_strlit("wheel_calibrate_here");
    reveal_strlit("range");
    reveal_strlit("gain");
    reveal_strlit("autocenter");
    reveal_strlit("combine_pedals");
    let d = dd_settings();
    let c = classic_settings();
    crate::setting::lemma_registries_never_collide();
    crate::setting::lemma_find_at(d, 0, "wheel_range"@);
    crate::setting::lemma_find_at(d, 1, "wheel_mode"@);
    crate::setting::lemma_find_at(d, 2, "wheel_sensitivity"@);
    crate::setting::lemma_find_at(d, 3, "wheel_texture_route"@);
    crate::setting::lemma_find_at(d, 4, "wheel_led_apply"@);
    crate::setting::lemma_find_at(d, 5, "wheel_calibrate_here"@);
    crate::setting::lemma_find_at(c, 0, "range"@);
    crate::setting::lemma_find_at(c, 1, "gain"@);
    crate::setting::lemma_find_at(c, 2, "autocenter"@);
    crate::setting::lemma_find_at(c, 3, "combine_pedals"@);
    assert forall|k: int| 0 <= k < 4 implies crate::setting::find_setting(d, (#[trigger] c[k]).attr@) is None by {
        crate::setting::lemma_find_member(d, c[k].attr@);
        if crate::setting::find_setting(d, c[k].attr@) is Some {
            let i = choose|i: int| 0 <= i < d.len() && d[i] == crate::setting::find_setting(d, c[k].attr@)->Some_0
                && d[i].attr@ == c[k].attr@;
            assert(d[i].attr@ != c[k].attr@);
        }
    }
    assert(c[0].attr@ == "range"@);
    assert(c[1].attr@ == "gain"@);
    assert(c[2].attr@ == "autocenter"@);
    assert(c[3].attr@ == "combine_pedals"@);
}

/// What every setting accepts, by number and word, and what is written
/// for it: `wheel_range` takes 90 to 2700 degrees and `range` 40 to 900,
/// `gain` and `autocenter` 0 to 65535, each written in decimal, anything
/// else refused as out of range; `wheel_sensitivity` takes 0 to 100 percent
/// in desktop mode only; `wheel_mode` writes `desktop` or `onboard`,
/// `wheel_texture_route` `ffb` or `tf`, `combine_pedals` its index 0 to 2;
/// a trigger writes `1`.
pub proof fn lemma_setting_limits(x: i64, p: u8, i: u8, mode: Result<Mode, Error>)
    ensures
        write_decision("wheel_range"@, Value::Int(x), mode) == if 90 <= x <= 2700 {
            Ok(dec_int(x as int))
        } else {
            Err(Error::OutOfRange)
        },
        write_decision("range"@, Value::Int(x), mode) == if 40 <= x <= 900 {
            Ok(dec_int(x as int))
        } else {
            Err(Error::OutOfRange)
        },
        write_decision("gain"@, Value::Int(x), mode) == if 0 <= x <= 65535 {
            Ok(dec_int(x as int))
        } else {
            Err(Error::OutOfRange)
        },
        write_decision("autocenter"@, Value::Int(x), mode) == if 0 <= x <= 65535 {
            Ok(dec_int(x as int))
        } else {
            Err(Error::OutOfRange)
        },
        p > 100 ==> write_decision("wheel_sensitivity"@, Value::Percent(p), mode) == Err::<Seq<char>, Error>(
            Error::OutOfRange,
        ),
        p <= 100 && mode == Ok::<Mode, Error>(Mode::Desktop) ==> write_decision(
            "wheel_sensitivity"@,
            Value::Percent(p),
            mode,
        ) == Ok::<Seq<char>, Error>(dec(p as nat)),
        p <= 100 && mode == Ok::<Mode, Error>(Mode::Onboard) ==> write_decision(
            "wheel_sensitivity"@,
            Value::Percent(p),
            mode,
        ) == Err::<Seq<char>, Error>(Error::WrongMode { needed: Mode::Desktop }),
        write_decision("wheel_mode"@, Value::Enum(i), mode) == if i == 0 {
            Ok("desktop"@)
        } else if i == 1 {
            Ok("onboard"@)
        } else {
            Err(Error::OutOfRange)
        },
        write_decision("wheel_texture_route"@, Value::Enum(i), mode) == if i == 0 {
            Ok("ffb"@)
        } else if i == 1 {
            Ok("tf"@)
        } else {
            Err(Error::OutOfRange)
        },
        write_decision("combine_pedals"@, Value::Enum(i), mode) == if i < 3 {
            Ok(dec(i as nat))
        } else {
            Err(Error::OutOfRange)
        },
        write_decision("wheel_led_apply"@, Value::Trigger, mode) == Ok::<Seq<char>, Error>(seq!['1']),
        write_decision("wheel_calibrate_here"@, Value::Trigger, mode) == Ok::<Seq<char>, Error>(seq!['1']),
{
    lemma_setting_names();
    reveal_strlit("wheel_mode");
    reveal_strlit("wheel_texture_route");
    reveal_strlit("combine_pedals");
    reveal_strlit("wheel_range");
    reveal_strlit("wheel_sensitivity");
    reveal_strlit("wheel_led_apply");
    reveal_strlit("wheel_calibrate_here");
    reveal_strlit("range");
    reveal_strlit("gain");
    reveal_strlit("autocenter");
}

/// `wheel_range`'s limits hold whatever the wheel's mode.
proof fn lemma_range_in_any_mode(x: i64)
    ensures
        forall|m: Result<Mode, Error>|
            #[trigger] write_decision("wheel_range"@, Value::Int(x), m) == if 90 <= x <= 2700 {
                Ok(dec_int(x as int))
            } else {
                Err(Error::OutOfRange)
            },
{
    assert forall|m: Result<Mode, Error>|
        #[trigger] write_decision("wheel_range"@, Value::Int(x), m) == if 90 <= x <= 2700 {
            Ok(dec_int(x as int))
        } else {
            Err(Error::OutOfRange)
        } by {
        lemma_setting_limits(x, 0, 0, m);
    }
}

/// A write whose decision was `d` returned `r`: a refused write returns
/// its error and leaves the device as it was (`after` is `before`); an allowed one
/// returns what writing the text gave.
pub open spec fn write_went<T>(d: Result<Seq<char>, Error>, r: Result<(), Error>, before: T, after: T) -> bool {
    match d {
        Err(e) => r == Err::<(), Error>(e) && after == before,
        Ok(_) => exists|w: Result<(), IoError>| r == #[trigger] write_outcome(w),
    }
}

/// Switching a wheel whose mode read as `mode` to desktop returned `r`: a
/// failed read returns its error and a wheel already in desktop mode
/// succeeds, both leaving the device as it was (`after` is `before`); a wheel in
/// onboard mode returns what writing `desktop` gave.
pub open spec fn desktop_went<T>(mode: Result<Mode, Error>, r: Result<(), Error>, before: T, after: T) -> bool {
    match mode {
        Err(e) => r == Err::<(), Error>(e) && after == before,
        Ok(Mode::Desktop) => r is Ok && after == before,
        Ok(Mode::Onboard) => exists|w: Result<(), IoError>| r == #[trigger] write_outcome(w),
    }
}

/// The trimmed text of `attr`, or nothing when it cannot be read.
pub open spec fn text_or_empty(files: Map<Seq<char>, Result<Seq<char>, IoError>>, attr: Seq<char>) -> Seq<char> {
    match read_result(files, attr) {
        Ok(t) => trim(t),
        Err(_) => Seq::empty(),
    }
}

/// `writes` is `before` plus one write of `text` to `attr`, and `r` is
/// that write's outcome.
pub open spec fn wrote_once(
    before: Seq<WriteRecord>,
    writes: Seq<WriteRecord>,
    attr: Seq<char>,
    text: Seq<char>,
    r: Result<(), Error>,
) -> bool {
    &&& writes.len() == before.len() + 1
    &&& writes.drop_last() == before
    &&& writes.last().0 == attr
    &&& writes.last().1 == text
    &&& r == write_outcome(writes.last().2)
}

/// Each word of a word list reads back, trimmed, as its own position; a
/// single character is none of the words.
proof fn lemma_words_read_back(w: Words)
    ensures
        forall|i: int|
            0 <= i < w.list().len() ==> trim(#[trigger] w.list()[i]) == w.list()[i] && word_index(
                w.list(),
                w.list()[i],
            ) == Some(i),
        forall|t: Seq<char>| t.len() == 1 ==> word_index(w.list(), t) is None,
{
    reveal_strlit("desktop");
    reveal_strlit("onboard");
    reveal_strlit("ffb");
    reveal_strlit("tf");
    reveal_strlit("off");
    reveal_strlit("throttle_brake");
    reveal_strlit("throttle_clutch");
    reveal_with_fuel(word_index, 4);
    let l = w.list();
    assert forall|i: int| 0 <= i < l.len() implies trim(#[trigger] l[i]) == l[i] && word_index(l, l[i])
        == Some(i) by {
        let x = l[i];
        assert(!crate::text::is_ws(x[0]));
        assert(!crate::text::is_ws(x.last()));
        assert(crate::text::trim_start(x) == x);
        assert(crate::text::trim_end(x) == x);
        assert(forall|j: int| 0 <= j < i ==> l[j][0] != x[0] || l[j].len() != x.len() || l[j][l[j].len()
            - 1] != x.last());
        assert(l.drop_last().drop_last().len() <= 1);
    }
    assert forall|t: Seq<char>| t.len() == 1 implies word_index(l, t) is None by {
        assert(forall|j: int| 0 <= j < l.len() ==> l[j].len() > 1);
        assert(l.drop_last().drop_last().len() <= 1);
    }
}

/// A read gives back what a write wrote: when writing `v` to the setting
/// `attr` sends the text `t`, and the attribute then reads as `t` (as a
/// stored attribute does), reading the setting gives `v` back. Every
/// setting of both registries round-trips, whatever the wheel and its
/// mode.
pub proof fn lemma_read_gives_back_write(
    model: WheelModel,
    files: Map<Seq<char>, Result<Seq<char>, IoError>>,
    attr: Seq<char>,
    v: Value,
)
    requires
        setting_write(model, files, attr, v) is Ok,
    ensures
        setting_read(files.insert(attr, Ok(setting_write(model, files, attr, v)->Ok_0)), attr) == Ok::<
            Value,
            Error,
        >(v),
{
    let t = setting_write(model, files, attr, v)->Ok_0;
    let after = files.insert(attr, Ok(t));
    assert(read_result(after, attr) == Ok::<Seq<char>, IoError>(t));
    let s = lookup_setting(attr)->Some_0;
    crate::setting::lemma_find_member(dd_settings(), attr);
    crate::setting::lemma_find_member(classic_settings(), attr);
    reveal_strlit("wheel_mode");
    reveal_strlit("wheel_texture_route");
    reveal_strlit("wheel_range");
    reveal_strlit("wheel_sensitivity");
    reveal_strlit("wheel_led_apply");
    reveal_strlit("wheel_calibrate_here");
    reveal_strlit("range");
    reveal_strlit("gain");
    reveal_strlit("autocenter");
    reveal_strlit("combine_pedals");
    assert(setting_text(s, v) == Ok::<Seq<char>, Error>(t));
    match (s.kind, v) {
        (Kind::Int { .. }, Value::Int(x)) => {
            lemma_parse_dec_int(x as int);
            assert(parse_i64(trim(t)) == Some(x));
        },
        (Kind::Percent, Value::Percent(p)) => {
            lemma_parse_dec_int(p as int);
            assert(dec_int(p as int) == dec(p as nat));
            assert(parse_i64(trim(t)) == Some(p as i64));
        },
        (Kind::Enum(w), Value::Enum(i)) => {
            lemma_words_read_back(w);
            if written_as_word(s) {
                assert(t == w.list()[i as int]);
                assert(word_index(w.list(), trim(t)) == Some(i as int));
            } else {
                lemma_parse_dec_int(i as int);
                assert(dec_int(i as int) == dec(i as nat));
                assert(t == dec(i as nat));
                crate::text::lemma_dec_digits(i as nat);
                assert(dec(i as nat).len() == 1);
                assert(word_index(w.list(), trim(t)) is None);
                assert(parse_i64(trim(t)) == Some(i as i64));
            }
        },
        (Kind::Trigger, Value::Trigger) => {
            assert(s.access == Access::Action);
        },
        _ => {},
    }
}

/// Once `wheel_mode` reads as the `desktop` that switching to desktop mode
/// writes, the wheel is in desktop mode, whatever it was in before.
pub proof fn lemma_desktop_after_switch(model: WheelModel, files: Map<Seq<char>, Result<Seq<char>, IoError>>)
    ensures
        mode_of(model, files.insert("wheel_mode"@, Ok("desktop"@))) == Ok::<Mode, Error>(Mode::Desktop),
{
    reveal_strlit("desktop");
    reveal_strlit("onboard");
    let t = "desktop"@;
    assert(!crate::text::is_ws(t[0]) && !crate::text::is_ws(t.last()));
    assert(crate::text::trim_start(t) == t);
    assert(crate::text::trim_end(t) == t);
    assert(t[0] != "onboard"@[0]);
}

/// The first position of `t` among the words of `w`.
fn word_position(w: Words, t: &str) -> (r: Option<usize>)
    ensures
        r is Some <==> word_index(w.list(), t@) is Some,
        r matches Some(i) ==> word_index(w.list(), t@) == Some(i as int) && i < w.list().len(),
{
    let n = w.count();
    let mut i: usize = 0;
    assert(w.list().take(0) =~= Seq::<Seq<char>>::empty());
    while i < n
        invariant
            n == w.list().len(),
            i <= n,
            word_index(w.list().take(i as int), t@) is None,
        decreases n - i,
    {
        proof {
            assert(w.list().take(i + 1).drop_last() =~= w.list().take(i as int));
        }
        if str_eq(w.word(i), t) {
            proof {
                lemma_word_index_prefix(w.list(), t@, i as int + 1);
                assert(w.list().take(i + 1).last() == w.list()[i as int]);
            }
            return Some(i);
        }
        i = i + 1;
    }
    assert(w.list().take(n as int) =~= w.list());
    None
}

proof fn lemma_word_index_prefix(words: Seq<Seq<char>>, t: Seq<char>, k: int)
    requires
        0 <= k <= words.len(),
        word_index(words.take(k), t) is Some,
    ensures
        word_index(words, t) == word_index(words.take(k), t),
    decreases words.len() - k,
{
    if k < words.len() {
        assert(words.take(k + 1).drop_last() =~= words.take(k));
        lemma_word_index_prefix(words, t, k + 1);
    } else {
        assert(words.take(k) =~= words);
    }
}

impl<S: SysfsIo> Device<S> {
    /// What the wheel's attributes read as.
    pub closed spec fn files(&self) -> Map<Seq<char>, Result<Seq<char>, IoError>> {
        self.io.files()
    }

    /// Every write made to the wheel's attributes.
    pub closed spec fn writes(&self) -> Seq<WriteRecord> {
        self.io.writes()
    }

    pub closed spec fn wheel(&self) -> WheelModel {
        self.model
    }

    /// A wheel behind `io` whose model is not known.
    pub fn with_io(io: S) -> (r: Device<S>)
        ensures
            r.wheel() == WheelModel::Unknown,
            r.files() == io.files(),
            r.writes() == io.writes(),
    {
        Device { io, model: WheelModel::default() }
    }

    /// A wheel behind `io` of a known model.
    pub fn with_io_and_model(io: S, model: WheelModel) -> (r: Device<S>)
        ensures
            r.wheel() == model,
            r.files() == io.files(),
            r.writes() == io.writes(),
    {
        Device { io, model }
    }

    pub fn model(&self) -> (r: WheelModel)
        ensures
            r == self.wheel(),
    {
        self.model
    }

    /// This wheel's settings: the classic set for a G923, the direct-drive
    /// `wheel_*` set for everything else.
    pub fn settings(&self) -> (r: Vec<SettingSpec>)
        ensures
            r@ == (if self.wheel() == WheelModel::G923 {
                classic_settings()
            } else {
                dd_settings()
            }),
    {
        match self.model {
            WheelModel::G923 => classic_registry(),
            _ => registry(),
        }
    }

    /// Look `attr` up in either registry.
    pub fn spec(attr: &str) -> (r: Option<SettingSpec>)
        ensures
            r == lookup_setting(attr@),
    {
        let dd = registry();
        match find_in(&dd, attr) {
            Some(s) => Some(s),
            None => {
                let classic = classic_registry();
                find_in(&classic, attr)
            },
        }
    }

    /// Whether the attribute file is present.
    pub fn available(&self, attr: &str) -> (r: bool)
        ensures
            S::modelled() ==> r == self.files().contains_key(attr@),
    {
        self.io.has(attr)
    }

    /// The wheel's operating mode.
    pub fn current_mode(&self) -> (r: Result<Mode, Error>)
        ensures
            S::modelled() ==> r == mode_of(self.wheel(), self.files()),
            self.wheel() == WheelModel::G923 ==> r == Ok::<Mode, Error>(Mode::Desktop),
            exists|raw: Result<Seq<char>, IoError>| r == #[trigger] mode_from(self.wheel(), raw),
    {
        if self.model == WheelModel::G923 {
            assert(mode_from(self.wheel(), Err(IoError::NotFound)) == Ok::<Mode, Error>(Mode::Desktop));
            return Ok(Mode::Desktop);
        }
        let read = self.io.read("wheel_mode");
        let r = match read {
            Err(e) => Err(map_io_error(&e)),
            Ok(raw) => {
                proof {
                    reveal_strlit("onboard");
                }
                if str_eq(trim_str(raw.as_str()), "onboard") {
                    Ok(Mode::Onboard)
                } else {
                    Ok(Mode::Desktop)
                }
            },
        };
        assert(r == mode_from(self.wheel(), entry_result(read)));
        r
    }

    /// The trimmed text of `attr`, empty when it cannot be read.
    fn read_trimmed(&self, attr: &str) -> (r: String)
        ensures
            S::modelled() ==> r@ == text_or_empty(self.files(), attr@),
    {
        match self.io.read(attr) {
            Ok(s) => String::from_str(trim_str(s.as_str())),
            Err(_) => String::new(),
        }
    }

    /// Serial, firmware (on one line), mode and model.
    pub fn info(&self) -> (r: Result<DeviceInfo, Error>)
        ensures
            S::modelled() ==> match mode_of(self.wheel(), self.files()) {
                Err(e) => r matches Err(e2) && e2 == e,
                Ok(m) => r matches Ok(i) && i.mode == m && i.model == self.wheel() && i.serial@
                    == text_or_empty(self.files(), "wheel_serial"@) && i.firmware@ == replace_char(
                    text_or_empty(self.files(), "wheel_firmware"@),
                    '\n',
                    " / "@,
                ),
            },
    {
        let serial = self.read_trimmed("wheel_serial");
        // The driver reports "base: ...\nmotor: ..."; keep it on one line.
        let raw_firmware = self.read_trimmed("wheel_firmware");
        let firmware = replace_char_str(raw_firmware.as_str(), '\n', " / ");
        let mode = match self.current_mode() {
            Ok(m) => m,
            Err(e) => return Err(e),
        };
        Ok(DeviceInfo { serial, firmware, mode, model: self.model })
    }

    /// Read a setting as a typed value.
    pub fn read(&self, attr: &str) -> (r: Result<Value, Error>)
        ensures
            S::modelled() ==> r == setting_read(self.files(), attr@),
            exists|raw: Result<Seq<char>, IoError>| r == #[trigger] read_decision(attr@, raw),
            lookup_setting(attr@) is None ==> r == Err::<Value, Error>(Error::Invalid),
            lookup_setting(attr@) matches Some(s) && s.access == Access::Action ==> r == Ok::<Value, Error>(
                Value::Trigger,
            ),
    {
        let spec = match Self::spec(attr) {
            Some(s) => s,
            None => {
                assert(read_decision(attr@, Err(IoError::NotFound)) == Err::<Value, Error>(Error::Invalid));
                return Err(Error::Invalid);
            },
        };
        if spec.access == Access::Action {
            assert(read_decision(attr@, Err(IoError::NotFound)) == Ok::<Value, Error>(Value::Trigger));
            return Ok(Value::Trigger);
        }
        let read = self.io.read(attr);
        let raw = match read {
            Ok(raw) => raw,
            Err(e) => {
                assert(read_decision(attr@, entry_result(read)) == Err::<Value, Error>(io_error_meaning(e)));
                return Err(map_io_error(&e));
            },
        };
        assert(read_decision(attr@, entry_result(read)) == value_from_text(spec.kind, raw@));
        if let Kind::Enum(w) = spec.kind {
            let t = trim_str(raw.as_str());
            if let Some(i) = word_position(w, t) {
                assert(w.list().len() <= 3);
                assert(word_index(w.list(), trim(raw@)) == Some(i as int));
                assert(value_from_text(spec.kind, raw@) == Ok::<Value, Error>(Value::Enum(i as u8)));
                assert(S::modelled() ==> read_result(self.files(), attr@) == Ok::<Seq<char>, IoError>(raw@));
                return Ok(Value::Enum(i as u8));
            }
        }
        spec.kind.parse(raw.as_str())
    }

    /// The text for a valid value of `spec`.
    fn raw_for_write(&self, spec: &SettingSpec, v: &Value) -> (r: Result<String, Error>)
        ensures
            match setting_text(*spec, *v) {
                Ok(t) => r is Ok && r->Ok_0@ == t,
                Err(e) => r matches Err(e2) && e2 == e,
            },
    {
        if let (Kind::Enum(w), Value::Enum(i)) = (spec.kind, *v) {
            proof {
                reveal_strlit("wheel_mode");
                reveal_strlit("wheel_texture_route");
            }
            if str_eq(spec.attr, "wheel_mode") || str_eq(spec.attr, "wheel_texture_route") {
                if (i as usize) < w.count() {
                    return Ok(String::from_str(w.word(i as usize)));
                } else {
                    return Err(Error::OutOfRange);
                }
            }
        }
        spec.kind.format(v)
    }

    /// Validate and write a setting. Nothing reaches the device unless the
    /// attribute is a writable setting, `v` is valid for it, and the wheel
    /// is in the mode the setting needs.
    pub fn write(&mut self, attr: &str, v: &Value) -> (r: Result<(), Error>)
        ensures
            final(self).wheel() == old(self).wheel(),
            (attr@ == "wheel_range"@ && (*v matches Value::Int(x) && (x < 90 || x > 2700))) ==> r
                == Err::<(), Error>(Error::OutOfRange) && *final(self) == *old(self),
            (S::modelled() && attr@ == "wheel_range"@ && (*v matches Value::Int(x) && 90 <= x <= 2700))
                ==> wrote_once(old(self).writes(), final(self).writes(), "wheel_range"@, dec_int(v->Int_0 as int), r),
            exists|raw: Result<Seq<char>, IoError>|
                #[trigger] write_went(
                    write_decision(attr@, *v, mode_from(old(self).wheel(), raw)),
                    r,
                    *old(self),
                    *final(self),
                ),
            S::modelled() ==> match setting_write(old(self).wheel(), old(self).files(), attr@, *v) {
                Err(e) => r == Err::<(), Error>(e) && *final(self) == *old(self),
                Ok(text) => {
                    &&& wrote_once(old(self).writes(), final(self).writes(), attr@, text, r)
                    &&& r is Ok <==> !(old(self).files().get(attr@) matches Some(Err(_)))
                    &&& r is Ok ==> final(self).files() == old(self).files().insert(attr@, Ok(text))
                    &&& r is Err ==> final(self).files() == old(self).files()
                },
            },
    {
        let ghost wheel = self.wheel();
        let ghost none: Result<Seq<char>, IoError> = Err(IoError::NotFound);
        proof {
            if let Value::Int(x) = *v {
                lemma_range_in_any_mode(x);
            }
        }
        let spec = match Self::spec(attr) {
            Some(s) => s,
            None => {
                assert(write_went(write_decision(attr@, *v, mode_from(wheel, none)), Err(Error::Invalid), *old(self), *self));
                return Err(Error::Invalid);
            },
        };
        if spec.access == Access::ReadOnly {
            assert(write_went(write_decision(attr@, *v, mode_from(wheel, none)), Err(Error::Invalid), *old(self), *self));
            return Err(Error::Invalid);
        }
        match spec.kind.validate(v) {
            Ok(()) => {},
            Err(e) => {
                assert(write_went(write_decision(attr@, *v, mode_from(wheel, none)), Err(e), *old(self), *self));
                return Err(e);
            },
        }
        let ghost mut raw: Result<Seq<char>, IoError> = none;
        match spec.mode_req {
            ModeReq::DesktopOnly => {
                let m = self.current_mode();
                proof {
                    raw = choose|raw: Result<Seq<char>, IoError>| m == #[trigger] mode_from(self.wheel(), raw);
                }
                match m {
                    Err(e) => {
                        assert(write_went(write_decision(attr@, *v, mode_from(wheel, raw)), Err(e), *old(self), *self));
                        return Err(e);
                    },
                    Ok(m) => if m != Mode::Desktop {
                        let r = Err(Error::WrongMode { needed: Mode::Desktop });
                        assert(write_went(write_decision(attr@, *v, mode_from(wheel, raw)), r, *old(self), *self));
                        return r;
                    },
                }
            },
            ModeReq::OnboardOnly => {
                let m = self.current_mode();
                proof {
                    raw = choose|raw: Result<Seq<char>, IoError>| m == #[trigger] mode_from(self.wheel(), raw);
                }
                match m {
                    Err(e) => {
                        assert(write_went(write_decision(attr@, *v, mode_from(wheel, raw)), Err(e), *old(self), *self));
                        return Err(e);
                    },
                    Ok(m) => if m != Mode::Onboard {
                        let r = Err(Error::WrongMode { needed: Mode::Onboard });
                        assert(write_went(write_decision(attr@, *v, mode_from(wheel, raw)), r, *old(self), *self));
                        return r;
                    },
                }
            },
            ModeReq::Any => {},
        }
        assert(write_decision(attr@, *v, mode_from(wheel, raw)) == setting_text(spec, *v));
        let text = match self.raw_for_write(&spec, v) {
            Ok(text) => text,
            Err(e) => {
                assert(write_went(write_decision(attr@, *v, mode_from(wheel, raw)), Err(e), *old(self), *self));
                return Err(e);
            },
        };
        let w = self.io.write(attr, text.as_str());
        assert(S::modelled() ==> self.io.writes().drop_last() =~= old(self).io.writes());
        let r = match w {
            Ok(()) => Ok(()),
            Err(e) => Err(map_io_error(&e)),
        };
        assert(r == write_outcome(w));
        assert(write_went(write_decision(attr@, *v, mode_from(wheel, raw)), r, *old(self), *self));
        r
    }

    /// Switch the wheel to desktop mode if it is not there already.
    pub fn ensure_desktop_mode(&mut self) -> (r: Result<(), Error>)
        ensures
            final(self).wheel() == old(self).wheel(),
            old(self).wheel() == WheelModel::G923 ==> r is Ok && *final(self) == *old(self),
            S::modelled() && r is Ok ==> mode_of(final(self).wheel(), final(self).files()) == Ok::<
                Mode,
                Error,
            >(Mode::Desktop),
            exists|raw: Result<Seq<char>, IoError>|
                #[trigger] desktop_went(mode_from(old(self).wheel(), raw), r, *old(self), *final(self)),
            S::modelled() ==> match mode_of(old(self).wheel(), old(self).files()) {
                Err(e) => r == Err::<(), Error>(e) && *final(self) == *old(self),
                Ok(Mode::Desktop) => r is Ok && *final(self) == *old(self),
                Ok(Mode::Onboard) => {
                    &&& wrote_once(old(self).writes(), final(self).writes(), "wheel_mode"@, "desktop"@, r)
                    &&& r is Ok
                    &&& final(self).files() == old(self).files().insert("wheel_mode"@, Ok("desktop"@))
                },
            },
    {
        let ghost wheel = self.wheel();
        let m = self.current_mode();
        let ghost raw = choose|raw: Result<Seq<char>, IoError>| m == #[trigger] mode_from(self.wheel(), raw);
        match m {
            Err(e) => {
                assert(desktop_went(mode_from(wheel, raw), Err(e), *old(self), *self));
                return Err(e);
            },
            Ok(Mode::Desktop) => {
                assert(desktop_went(mode_from(wheel, raw), Ok(()), *old(self), *self));
                return Ok(());
            },
            Ok(Mode::Onboard) => {},
        }
        let w = self.io.write("wheel_mode", "desktop");
        assert(S::modelled() ==> self.io.writes().drop_last() =~= old(self).io.writes());
        let r = match w {
            Ok(()) => Ok(()),
            Err(e) => Err(map_io_error(&e)),
        };
        assert(r == write_outcome(w));
        assert(desktop_went(mode_from(wheel, raw), r, *old(self), *self));
        proof {
            lemma_desktop_after_switch(wheel, old(self).files());
        }
        r
    }
}

} // verus!
