//! Readings, devices and errors of the sensors on the desk.
use vstd::prelude::*;

verus! {

/// One measurement taken at the desk, as the bit pattern of an `f32`.
#[derive(Clone, Copy, Debug, PartialEq, Eq, Structural)]
pub enum Reading {
    Temperature(u32),
    Humidity(u32),
    Pressure(u32),
}

/// Number of distinct leaves below the desk.
pub const N_LEAVES: u8 = 3;

impl Reading {
    pub open spec fn id(self) -> u8 {
        match self {
            Reading::Temperature(_) => 0,
            Reading::Humidity(_) => 1,
            Reading::Pressure(_) => 2,
        }
    }

    pub open spec fn bits(self) -> u32 {
        match self {
            Reading::Temperature(v) => v,
            Reading::Humidity(v) => v,
            Reading::Pressure(v) => v,
        }
    }

    pub open spec fn of_parts(id: u8, bits: u32) -> Option<Reading> {
        if id == 0 {
            Some(Reading::Temperature(bits))
        } else if id == 1 {
            Some(Reading::Humidity(bits))
        } else if id == 2 {
            Some(Reading::Pressure(bits))
        } else {
            None
        }
    }

    pub open spec fn dev(self) -> Device {
        Device::Bme280
    }

    /// Range `(lo, hi)` and resolution of this leaf, in thousandths of its unit.
    pub open spec fn spec_limits(self) -> (int, int, int) {
        match self {
            Reading::Temperature(_) => (-20_000, 60_000, 10),
            Reading::Humidity(_) => (0, 100_000, 10),
            Reading::Pressure(_) => (30_000_000, 110_000_000, 1000),
        }
    }

    pub fn branch_id(&self) -> (r: u8)
        ensures
            r == self.id(),
            r < N_LEAVES,
    {
        match self {
            Reading::Temperature(_) => 0,
            Reading::Humidity(_) => 1,
            Reading::Pressure(_) => 2,
        }
    }

    pub fn value_bits(&self) -> (r: u32)
        ensures
            r == self.bits(),
    {
        match *self {
            Reading::Temperature(v) => v,
            Reading::Humidity(v) => v,
            Reading::Pressure(v) => v,
        }
    }

    pub fn from_parts(id: u8, bits: u32) -> (r: Option<Reading>)
        ensures
            r == Reading::of_parts(id, bits),
    {
        if id == 0 {
            Some(Reading::Temperature(bits))
        } else if id == 1 {
            Some(Reading::Humidity(bits))
        } else if id == 2 {
            Some(Reading::Pressure(bits))
        } else {
            None
        }
    }

    pub fn device(&self) -> (r: Device)
        ensures
            r == self.dev(),
    {
        Device::Bme280
    }

    pub fn limits(&self) -> (r: (i64, i64, u32))
        ensures
            r.0 as int == self.spec_limits().0,
            r.1 as int == self.spec_limits().1,
            r.2 as int == self.spec_limits().2,
            r.0 < r.1,
            r.2 > 0,
    {
        match self {
            Reading::Temperature(_) => (-20_000, 60_000, 10),
            Reading::Humidity(_) => (0, 100_000, 10),
            Reading::Pressure(_) => (30_000_000, 110_000_000, 1000),
        }
    }
}

impl Reading {
    /// Name of this leaf in the tree.
    pub open spec fn spec_name(self) -> Seq<char> {
        match self {
            Reading::Temperature(_) => "Temperature"@,
            Reading::Humidity(_) => "Humidity"@,
            Reading::Pressure(_) => "Pressure"@,
        }
    }

    pub fn name(&self) -> (r: &'static str)
        ensures
            r@ == self.spec_name(),
    {
        match self {
            Reading::Temperature(_) => "Temperature",
            Reading::Humidity(_) => "Humidity",
            Reading::Pressure(_) => "Pressure",
        }
    }
}

/// Every leaf is rebuilt from its id and payload.
pub proof fn lemma_parts_rebuild(r: Reading)
    ensures
        Reading::of_parts(r.id(), r.bits()) == Some(r),
{
}

/// A sensor attached to the desk node.
#[derive(Clone, Copy, Debug, PartialEq, Eq, Structural)]
pub enum Device {
    Bme280,
}

impl Device {
    pub open spec fn id(self) -> u8 {
        0
    }

    pub open spec fn of_id(id: u8) -> Option<Device> {
        if id == 0 {
            Some(Device::Bme280)
        } else {
            None
        }
    }

    pub open spec fn name(self) -> Seq<char> {
        "Bme280"@
    }

    pub open spec fn readings(self) -> Seq<Reading> {
        seq![Reading::Temperature(0), Reading::Humidity(0), Reading::Pressure(0)]
    }

    pub fn device_id(&self) -> (r: u8)
        ensures
            r == self.id(),
    {
        0
    }

    pub fn from_id(id: u8) -> (r: Option<Device>)
        ensures
            r == Device::of_id(id),
    {
        if id == 0 {
            Some(Device::Bme280)
        } else {
            None
        }
    }

    pub fn as_str(&self) -> (r: &'static str)
        ensures
            r@ == self.name(),
    {
        "Bme280"
    }

    pub fn broken_readings(&self) -> (r: Vec<Reading>)
        ensures
            r@ == self.readings(),
    {
        let r = vec![Reading::Temperature(0), Reading::Humidity(0), Reading::Pressure(0)];
        assert(r@ =~= self.readings());
        r
    }
}

/// Every leaf belongs to the reading list of its own device.
pub proof fn lemma_leaf_in_device(r: Reading)
    ensures
        exists|i: int|
            0 <= i < r.dev().readings().len() && #[trigger] r.dev().readings()[i].id() == r.id(),
{
    match r {
        Reading::Temperature(_) => assert(r.dev().readings()[0].id() == r.id()),
        Reading::Humidity(_) => assert(r.dev().readings()[1].id() == r.id()),
        Reading::Pressure(_) => assert(r.dev().readings()[2].id() == r.id()),
    }
}

/// Longest message a sensor error carries, in bytes.
pub const MAX_MESSAGE_LEN: usize = 200;

/// A failure reported by a sensor driver, with the driver's message.
#[derive(Clone, Debug)]
pub enum SensorError {
    Bme280(Vec<u8>),
}

impl SensorError {
    pub open spec fn dev(&self) -> Device {
        match self {
            SensorError::Bme280(_) => Device::Bme280,
        }
    }

    pub open spec fn msg(&self) -> Seq<u8> {
        match self {
            SensorError::Bme280(m) => m@,
        }
    }

    pub open spec fn wf(&self) -> bool {
        self.msg().len() <= MAX_MESSAGE_LEN
    }

    pub fn device(&self) -> (r: Device)
        ensures
            r == self.dev(),
    {
        match self {
            SensorError::Bme280(_) => Device::Bme280,
        }
    }

    pub fn message(&self) -> (r: &Vec<u8>)
        ensures
            r@ == self.msg(),
    {
        match self {
            SensorError::Bme280(m) => m,
        }
    }

    pub fn new(device: Device, message: Vec<u8>) -> (r: SensorError)
        ensures
            r.dev() == device,
            r.msg() == message@,
    {
        match device {
            Device::Bme280 => SensorError::Bme280(message),
        }
    }
}

/// What went wrong on this node, and with which device.
#[derive(Clone, Debug)]
pub enum Error {
    Running(SensorError),
    Setup(SensorError),
    SetupTimedOut(Device),
    Timeout(Device),
}

impl Error {
    /// 0 running, 1 setup, 2 setup timed out, 3 timed out.
    pub open spec fn cause(&self) -> u8 {
        match self {
            Error::Running(_) => 0,
            Error::Setup(_) => 1,
            Error::SetupTimedOut(_) => 2,
            Error::Timeout(_) => 3,
        }
    }

    pub open spec fn dev(&self) -> Device {
        match self {
            Error::Running(e) => e.dev(),
            Error::Setup(e) => e.dev(),
            Error::SetupTimedOut(d) => *d,
            Error::Timeout(d) => *d,
        }
    }

    /// The driver's message; empty for a timeout.
    pub open spec fn msg(&self) -> Seq<u8> {
        match self {
            Error::Running(e) => e.msg(),
            Error::Setup(e) => e.msg(),
            _ => Seq::empty(),
        }
    }

    pub open spec fn wf(&self) -> bool {
        self.msg().len() <= MAX_MESSAGE_LEN
    }

    pub fn cause_id(&self) -> (r: u8)
        ensures
            r == self.cause(),
    {
        match self {
            Error::Running(_) => 0,
            Error::Setup(_) => 1,
            Error::SetupTimedOut(_) => 2,
            Error::Timeout(_) => 3,
        }
    }

    pub fn device(&self) -> (r: Device)
        ensures
            r == self.dev(),
    {
        match self {
            Error::Running(e) => e.device(),
            Error::Setup(e) => e.device(),
            Error::SetupTimedOut(d) => *d,
            Error::Timeout(d) => *d,
        }
    }

    /// The message carried, if the cause carries one.
    pub fn message(&self) -> (r: Option<&Vec<u8>>)
        ensures
            (self.cause() < 2) == r.is_some(),
            r.is_some() ==> r.unwrap()@ == self.msg(),
    {
        match self {
            Error::Running(e) => Some(e.message()),
            Error::Setup(e) => Some(e.message()),
            _ => None,
        }
    }

    /// Builds the error with cause `cause` (see [`Error::cause`]).
    pub fn from_parts(cause: u8, device: Device, message: Vec<u8>) -> (r: Option<Error>)
        ensures
            r.is_some() == (cause < 4),
            r.is_some() ==> r.unwrap().cause() == cause && r.unwrap().dev() == device,
            r.is_some() && cause < 2 ==> r.unwrap().msg() == message@,
            r.is_some() && cause >= 2 ==> r.unwrap().msg() == Seq::<u8>::empty(),
    {
        if cause == 0 {
            Some(Error::Running(SensorError::new(device, message)))
        } else if cause == 1 {
            Some(Error::Setup(SensorError::new(device, message)))
        } else if cause == 2 {
            Some(Error::SetupTimedOut(device))
        } else if cause == 3 {
            Some(Error::Timeout(device))
        } else {
            None
        }
    }

    /// The readings this error leaves unknown: all of its device's.
    pub fn affected_readings(&self) -> (r: Vec<Reading>)
        ensures
            r@ == self.dev().readings(),
    {
        self.device().broken_readings()
    }
}

} // verus!
