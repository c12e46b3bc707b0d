//! The wheel's settings: what each sysfs attribute holds, how its text
//! reads and writes, and the two registries (direct-drive `wheel_*` and
//! the G923's classic set).

use vstd::prelude::*;
use vstd::string::*;
use crate::text::{dec, dec_int, i64_to_dec, parse_i64, parse_i64_str, str_eq, trim, trim_str, u64_to_dec};

verus! {

/// The wheel's operating mode: settings applied by the computer, or the
/// profile stored on the wheel.
#[derive(Debug, Clone, Copy, PartialEq, Eq, Structural)]
pub enum Mode {
    Desktop,
    Onboard,
}

/// Whether an attribute can be read, written, or only triggered.
#[derive(Debug, Clone, Copy, PartialEq, Eq, Structural)]
pub enum Access {
    ReadWrite,
    ReadOnly,
    /// A write-only trigger; reading the file fails with a permission error.
    Action,
}

/// Which mode a write needs the wheel to be in.
#[derive(Debug, Clone, Copy, PartialEq, Eq, Structural)]
pub enum ModeReq {
    Any,
    DesktopOnly,
    OnboardOnly,
}

/// The word lists of the attributes whose values are words or indices.
#[derive(Debug, Clone, Copy, PartialEq, Eq, Structural)]
pub enum Words {
    /// `wheel_mode`.
    Mode,
    /// `wheel_texture_route`: where TrueForce texture goes.
    TextureRoute,
    /// `combine_pedals` on the classic engine.
    CombinePedals,
}

impl Words {
    pub open spec fn list(self) -> Seq<Seq<char>> {
        match self {
            Words::Mode => seq!["desktop"@, "onboard"@],
            Words::TextureRoute => seq!["ffb"@, "tf"@],
            Words::CombinePedals => seq!["off"@, "throttle_brake"@, "throttle_clutch"@],
        }
    }

    pub fn count(self) -> (r: usize)
        ensures
            r == self.list().len(),
    {
        match self {
            Words::Mode => 2,
            Words::TextureRoute => 2,
            Words::CombinePedals => 3,
        }
    }

    pub fn word(self, i: usize) -> (r: &'static str)
        requires
            i < self.list().len(),
        ensures
            r@ == self.list()[i as int],
    {
        match self {
            Words::Mode => if i == 0 {
                "desktop"
            } else {
                "onboard"
            },
            Words::TextureRoute => if i == 0 {
                "ffb"
            } else {
                "tf"
            },
            Words::CombinePedals => if i == 0 {
                "off"
            } else if i == 1 {
                "throttle_brake"
            } else {
                "throttle_clutch"
            },
        }
    }
}

/// The shape of a setting's value.
#[derive(Debug, Clone, Copy, PartialEq, Eq, Structural)]
pub enum Kind {
    /// A whole number within `min..=max`.
    Int { min: i64, max: i64 },
    /// A percentage, `0..=100`.
    Percent,
    /// One of a fixed list of words, stored as its index.
    Enum(Words),
    /// A write-only trigger.
    Trigger,
}

/// A typed setting value.
#[derive(Debug, Clone, Copy, PartialEq, Eq, Structural)]
pub enum Value {
    Int(i64),
    Percent(u8),
    Enum(u8),
    Trigger,
}

/// A failed sysfs access, as the operating system reported it.
#[derive(Debug, Clone, Copy, PartialEq, Eq, Structural)]
pub enum IoError {
    /// The attribute file does not exist.
    NotFound,
    /// Any other failure, by `errno`.
    Os(i32),
}

/// Errors the settings layer reports.
#[derive(Debug, Clone, Copy, PartialEq, Eq, Structural)]
pub enum Error {
    /// The wheel (or the attribute's device) is gone.
    NoWheel,
    /// Not a setting, not writable, or text that does not parse.
    Invalid,
    /// A value outside the setting's range.
    OutOfRange,
    /// The write needs the wheel in another mode first.
    WrongMode { needed: Mode },
    /// The attribute exists but this user may not access it.
    Permission,
    /// Any other operating-system failure, by `errno`.
    Io(i32),
}

pub const ENOENT: i32 = 2;

pub const ENXIO: i32 = 6;

pub const EPERM: i32 = 1;

pub const EACCES: i32 = 13;

pub const ENODEV: i32 = 19;

pub const EINVAL: i32 = 22;

pub const ERANGE: i32 = 34;

/// How a failed sysfs access reads as a settings error.
pub open spec fn io_error_meaning(e: IoError) -> Error {
    match e {
        IoError::NotFound => Error::NoWheel,
        IoError::Os(n) => if n == ENOENT || n == ENODEV || n == ENXIO {
            Error::NoWheel
        } else if n == EPERM || n == EACCES {
            Error::Permission
        } else if n == EINVAL {
            Error::Invalid
        } else if n == ERANGE {
            Error::OutOfRange
        } else {
            Error::Io(n)
        },
    }
}

/// Translate a failed sysfs access into a settings error.
pub fn map_io_error(e: &IoError) -> (r: Error)
    ensures
        r == io_error_meaning(*e),
{
    match *e {
        IoError::NotFound => Error::NoWheel,
        IoError::Os(n) => if n == ENOENT || n == ENODEV || n == ENXIO {
            Error::NoWheel
        } else if n == EPERM || n == EACCES {
            Error::Permission
        } else if n == EINVAL {
            Error::Invalid
        } else if n == ERANGE {
            Error::OutOfRange
        } else {
            Error::Io(n)
        },
    }
}

/// The first position of `t` in `words`.
pub open spec fn word_index(words: Seq<Seq<char>>, t: Seq<char>) -> Option<int>
    decreases words.len(),
{
    if words.len() == 0 {
        None
    } else {
        match word_index(words.drop_last(), t) {
            Some(i) => Some(i),
            None => if words.last() == t {
                Some(words.len() - 1)
            } else {
                None
            },
        }
    }
}

/// What the (trimmed) text of an attribute reads as, for `kind`.
pub open spec fn parse_value(kind: Kind, raw: Seq<char>) -> Result<Value, Error> {
    let t = trim(raw);
    match kind {
        Kind::Int { .. } => match parse_i64(t) {
            Some(v) => Ok(Value::Int(v)),
            None => Err(Error::Invalid),
        },
        Kind::Percent => match parse_i64(t) {
            Some(v) => if 0 <= v <= 100 {
                Ok(Value::Percent(v as u8))
            } else {
                Err(Error::Invalid)
            },
            None => Err(Error::Invalid),
        },
        Kind::Enum(w) => match parse_i64(t) {
            Some(v) => if 0 <= v < w.list().len() {
                Ok(Value::Enum(v as u8))
            } else {
                Err(Error::Invalid)
            },
            None => Err(Error::Invalid),
        },
        Kind::Trigger => Ok(Value::Trigger),
    }
}

/// Whether `v` is an acceptable value for `kind`.
pub open spec fn check_value(kind: Kind, v: Value) -> Result<(), Error> {
    match (kind, v) {
        (Kind::Int { min, max }, Value::Int(x)) => if min <= x <= max {
            Ok(())
        } else {
            Err(Error::OutOfRange)
        },
        (Kind::Percent, Value::Percent(p)) => if p <= 100 {
            Ok(())
        } else {
            Err(Error::OutOfRange)
        },
        (Kind::Enum(w), Value::Enum(i)) => if i < w.list().len() {
            Ok(())
        } else {
            Err(Error::OutOfRange)
        },
        (Kind::Trigger, Value::Trigger) => Ok(()),
        _ => Err(Error::Invalid),
    }
}

/// The text written to the attribute for `v`: its number (an enum by its
/// index, a trigger as `1`).
pub open spec fn value_text(kind: Kind, v: Value) -> Result<Seq<char>, Error> {
    match (kind, v) {
        (Kind::Int { .. }, Value::Int(x)) => Ok(dec_int(x as int)),
        (Kind::Percent, Value::Percent(p)) => Ok(dec(p as nat)),
        (Kind::Enum(_), Value::Enum(i)) => Ok(dec(i as nat)),
        (Kind::Trigger, Value::Trigger) => Ok(seq!['1']),
        _ => Err(Error::Invalid),
    }
}

impl Kind {
    /// Read an attribute's text as a value of this kind.
    pub fn parse(&self, raw: &str) -> (r: Result<Value, Error>)
        ensures
            r == parse_value(*self, raw@),
    {
        let t = trim_str(raw);
        match *self {
            Kind::Int { .. } => match parse_i64_str(t) {
                Some(v) => Ok(Value::Int(v)),
                None => Err(Error::Invalid),
            },
            Kind::Percent => match parse_i64_str(t) {
                Some(v) => if 0 <= v && v <= 100 {
                    Ok(Value::Percent(v as u8))
                } else {
                    Err(Error::Invalid)
                },
                None => Err(Error::Invalid),
            },
            Kind::Enum(w) => match parse_i64_str(t) {
                Some(v) => if 0 <= v && v < w.count() as i64 {
                    Ok(Value::Enum(v as u8))
                } else {
                    Err(Error::Invalid)
                },
                None => Err(Error::Invalid),
            },
            Kind::Trigger => Ok(Value::Trigger),
        }
    }

    /// Check `v` against this kind before anything is written.
    pub fn validate(&self, v: &Value) -> (r: Result<(), Error>)
        ensures
            r == check_value(*self, *v),
    {
        match (*self, *v) {
            (Kind::Int { min, max }, Value::Int(x)) => if min <= x && x <= max {
                Ok(())
            } else {
                Err(Error::OutOfRange)
            },
            (Kind::Percent, Value::Percent(p)) => if p <= 100 {
                Ok(())
            } else {
                Err(Error::OutOfRange)
            },
            (Kind::Enum(w), Value::Enum(i)) => if (i as usize) < w.count() {
                Ok(())
            } else {
                Err(Error::OutOfRange)
            },
            (Kind::Trigger, Value::Trigger) => Ok(()),
            _ => Err(Error::Invalid),
        }
    }

    /// The text that writes `v`.
    pub fn format(&self, v: &Value) -> (r: Result<String, Error>)
        ensures
            match value_text(*self, *v) {
                Ok(t) => r is Ok && r->Ok_0@ == t,
                Err(e) => r == Err::<String, Error>(e),
            },
    {
        match (*self, *v) {
            (Kind::Int { .. }, Value::Int(x)) => Ok(i64_to_dec(x)),
            (Kind::Percent, Value::Percent(p)) => Ok(u64_to_dec(p as u64)),
            (Kind::Enum(_), Value::Enum(i)) => Ok(u64_to_dec(i as u64)),
            (Kind::Trigger, Value::Trigger) => {
                proof {
                    reveal_strlit("1");
                }
                Ok(String::from_str("1"))
            },
            _ => Err(Error::Invalid),
        }
    }
}

/// One setting: its attribute, value shape, access and mode gating.
#[derive(Debug, Clone, Copy)]
pub struct SettingSpec {
    pub attr: &'static str,
    pub kind: Kind,
    pub access: Access,
    pub mode_req: ModeReq,
}

pub open spec fn setting(attr: &'static str, kind: Kind, access: Access, mode_req: ModeReq) -> SettingSpec {
    SettingSpec { attr, kind, access, mode_req }
}

/// The direct-drive wheels' `wheel_*` settings.
pub open spec fn dd_settings() -> Seq<SettingSpec> {
    seq![
        setting("wheel_range", Kind::Int { min: 90, max: 2700 }, Access::ReadWrite, ModeReq::Any),
        setting("wheel_mode", Kind::Enum(Words::Mode), Access::ReadWrite, ModeReq::Any),
        setting("wheel_sensitivity", Kind::Percent, Access::ReadWrite, ModeReq::DesktopOnly),
        setting("wheel_texture_route", Kind::Enum(Words::TextureRoute), Access::ReadWrite, ModeReq::Any),
        setting("wheel_led_apply", Kind::Trigger, Access::Action, ModeReq::Any),
        setting("wheel_calibrate_here", Kind::Trigger, Access::Action, ModeReq::Any),
    ]
}

/// The G923's classic settings (Oversteer-compatible names).
pub open spec fn classic_settings() -> Seq<SettingSpec> {
    seq![
        setting("range", Kind::Int { min: 40, max: 900 }, Access::ReadWrite, ModeReq::Any),
        setting("gain", Kind::Int { min: 0, max: 65535 }, Access::ReadWrite, ModeReq::Any),
        setting("autocenter", Kind::Int { min: 0, max: 65535 }, Access::ReadWrite, ModeReq::Any),
        setting("combine_pedals", Kind::Enum(Words::CombinePedals), Access::ReadWrite, ModeReq::Any),
    ]
}

fn make(attr: &'static str, kind: Kind, access: Access, mode_req: ModeReq) -> (r: SettingSpec)
    ensures
        r == setting(attr, kind, access, mode_req),
{
    SettingSpec { attr, kind, access, mode_req }
}

/// The direct-drive registry.
pub fn registry() -> (r: Vec<SettingSpec>)
    ensures
        r@ == dd_settings(),
{
    let mut v = Vec::new();
    v.push(make("wheel_range", Kind::Int { min: 90, max: 2700 }, Access::ReadWrite, ModeReq::Any));
    v.push(make("wheel_mode", Kind::Enum(Words::Mode), Access::ReadWrite, ModeReq::Any));
    v.push(make("wheel_sensitivity", Kind::Percent, Access::ReadWrite, ModeReq::DesktopOnly));
    v.push(
        make(
            "wheel_texture_route",
            Kind::Enum(Words::TextureRoute),
            Access::ReadWrite,
            ModeReq::Any,
        ),
    );
    v.push(make("wheel_led_apply", Kind::Trigger, Access::Action, ModeReq::Any));
    v.push(make("wheel_calibrate_here", Kind::Trigger, Access::Action, ModeReq::Any));
    assert(v@ =~= dd_settings());
    v
}

/// The classic (G923) registry.
pub fn classic_registry() -> (r: Vec<SettingSpec>)
    ensures
        r@ == classic_settings(),
{
    let mut v = Vec::new();
    v.push(make("range", Kind::Int { min: 40, max: 900 }, Access::ReadWrite, ModeReq::Any));
    v.push(make("gain", Kind::Int { min: 0, max: 65535 }, Access::ReadWrite, ModeReq::Any));
    v.push(make("autocenter", Kind::Int { min: 0, max: 65535 }, Access::ReadWrite, ModeReq::Any));
    v.push(
        make("combine_pedals", Kind::Enum(Words::CombinePedals), Access::ReadWrite, ModeReq::Any),
    );
    assert(v@ =~= classic_settings());
    v
}

/// The first setting of `reg` named `attr`.
pub open spec fn find_setting(reg: Seq<SettingSpec>, attr: Seq<char>) -> Option<SettingSpec>
    decreases reg.len(),
{
    if reg.len() == 0 {
        None
    } else {
        match find_setting(reg.drop_last(), attr) {
            Some(s) => Some(s),
            None => if reg.last().attr@ == attr {
                Some(reg.last())
            } else {
                None
            },
        }
    }
}

/// `attr` looked up in either registry (their names never collide).
pub open spec fn lookup_setting(attr: Seq<char>) -> Option<SettingSpec> {
    match find_setting(dd_settings(), attr) {
        Some(s) => Some(s),
        None => find_setting(classic_settings(), attr),
    }
}

/// Find `attr` in `reg`.
pub fn find_in(reg: &Vec<SettingSpec>, attr: &str) -> (r: Option<SettingSpec>)
    ensures
        r == find_setting(reg@, attr@),
{
    let mut i: usize = 0;
    assert(reg@.take(0) =~= Seq::<SettingSpec>::empty());
    while i < reg.len()
        invariant
            i <= reg.len(),
            find_setting(reg@.take(i as int), attr@) is None,
        decreases reg.len() - i,
    {
        proof {
            assert(reg@.take(i + 1).drop_last() =~= reg@.take(i as int));
        }
        if str_eq(reg[i].attr, attr) {
            proof {
                lemma_find_prefix(reg@, attr@, i as int + 1);
            }
            return Some(reg[i]);
        }
        i = i + 1;
    }
    assert(reg@.take(reg.len() as int) =~= reg@);
    None
}

/// The two registries' names never collide: every direct-drive attribute
/// starts with `wheel_` and no classic one does. So a plain name lookup
/// needs no wheel model, and a G923's settings never include a
/// direct-drive row.
pub proof fn lemma_registries_never_collide()
    ensures
        forall|i: int|
            0 <= i < dd_settings().len() ==> (#[trigger] dd_settings()[i]).attr@.len() > 6
                && dd_settings()[i].attr@.subrange(0, 6) == "wheel_"@,
        forall|j: int|
            0 <= j < classic_settings().len() ==> !((#[trigger] classic_settings()[j]).attr@.len() >= 6
                && classic_settings()[j].attr@.subrange(0, 6) == "wheel_"@),
        forall|i: int, j: int|
            0 <= i < dd_settings().len() && 0 <= j < classic_settings().len() ==> (
            #[trigger] dd_settings()[i]).attr@ != (#[trigger] classic_settings()[j]).attr@,
{
    reveal_strlit("wheel_");
    reveal_strlit("wheel_range");
    reveal_strlit("wheel_mode");
    reveal_strlit("wheel_sensitivity");
    reveal_strlit("wheel_texture_route");
    reveal_strlit("wheel_led_apply");
    reveal_strlit("wheel_calibrate_here");
    reveal_strlit("range");
    reveal_strlit("gain");
    reveal_strlit("autocenter");
    reveal_strlit("combine_pedals");
    assert forall|i: int| 0 <= i < dd_settings().len() implies (#[trigger] dd_settings()[i]).attr@.len()
        > 6 && dd_settings()[i].attr@.subrange(0, 6) == "wheel_"@ by {
        assert(dd_settings()[i].attr@.subrange(0, 6) =~= "wheel_"@);
    }
    assert forall|j: int| 0 <= j < classic_settings().len() implies !((#[trigger] classic_settings()[
        j]).attr@.len() >= 6 && classic_settings()[j].attr@.subrange(0, 6) == "wheel_"@) by {
        let a = classic_settings()[j].attr@;
        if a.len() >= 6 {
            assert(a.subrange(0, 6)[0] != 'w');
        }
    }
    assert forall|i: int, j: int|
        0 <= i < dd_settings().len() && 0 <= j < classic_settings().len() implies (
        #[trigger] dd_settings()[i]).attr@ != (#[trigger] classic_settings()[j]).attr@ by {
        assert(dd_settings()[i].attr@[0] != classic_settings()[j].attr@[0]);
    }
}

/// A registry finds the first entry with the name.
pub proof fn lemma_find_at(reg: Seq<SettingSpec>, k: int, attr: Seq<char>)
    requires
        0 <= k < reg.len(),
        reg[k].attr@ == attr,
        forall|j: int| 0 <= j < k ==> (#[trigger] reg[j]).attr@ != attr,
    ensures
        find_setting(reg, attr) == Some(reg[k]),
{
    lemma_find_none_before(reg, k, attr);
    assert(reg.take(k + 1).drop_last() =~= reg.take(k));
    assert(reg.take(k + 1).last() == reg[k]);
    lemma_find_prefix(reg, attr, k + 1);
}

proof fn lemma_find_none_before(reg: Seq<SettingSpec>, k: int, attr: Seq<char>)
    requires
        0 <= k <= reg.len(),
        forall|j: int| 0 <= j < k ==> (#[trigger] reg[j]).attr@ != attr,
    ensures
        find_setting(reg.take(k), attr) is None,
    decreases k,
{
    if k > 0 {
        lemma_find_none_before(reg, k - 1, attr);
        assert(reg.take(k).drop_last() =~= reg.take(k - 1));
        assert(reg.take(k).last() == reg[k - 1]);
    } else {
        assert(reg.take(0) =~= Seq::<SettingSpec>::empty());
    }
}

/// What `find_setting` finds is an entry of the registry, with that name.
pub proof fn lemma_find_member(reg: Seq<SettingSpec>, attr: Seq<char>)
    ensures
        find_setting(reg, attr) matches Some(s) ==> exists|i: int|
            0 <= i < reg.len() && reg[i] == s && s.attr@ == attr,
    decreases reg.len(),
{
    if reg.len() > 0 {
        lemma_find_member(reg.drop_last(), attr);
        if let Some(s) = find_setting(reg.drop_last(), attr) {
            let i = choose|i: int| 0 <= i < reg.drop_last().len() && reg.drop_last()[i] == s && s.attr@
                == attr;
            assert(reg[i] == s);
        } else if find_setting(reg, attr) is Some {
            assert(reg[reg.len() - 1] == reg.last());
        }
    }
}

/// Once a prefix of `reg` finds a setting, the whole registry finds the
/// same one.
proof fn lemma_find_prefix(reg: Seq<SettingSpec>, attr: Seq<char>, k: int)
    requires
        0 <= k <= reg.len(),
        find_setting(reg.take(k), attr) is Some,
    ensures
        find_setting(reg, attr) == find_setting(reg.take(k), attr),
    decreases reg.len() - k,
{
    if k < reg.len() {
        assert(reg.take(k + 1).drop_last() =~= reg.take(k));
        lemma_find_prefix(reg, attr, k + 1);
    } else {
        assert(reg.take(k) =~= reg);
    }
}

} // verus!
