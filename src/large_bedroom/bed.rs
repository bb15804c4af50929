//! Readings, devices and errors of the sensors around the bed.
use vstd::prelude::*;

verus! {

/// One measurement taken at the bed. Floating point measurements are carried
/// as the IEEE-754 bit pattern of the `f32` the sensor produced.
#[derive(Clone, Copy, Debug, PartialEq, Eq, Structural)]
pub enum Reading {
    Brightness(u32),
    Temperature(u32),
    Humidity(u32),
    /// in Ohm
    GassResistance(u32),
    Pressure(u32),
    /// parts per million
    Co2(u16),
    /// weight on the left side of the bed
    WeightLeft(u32),
    /// weight on the right side of the bed
    WeightRight(u32),
    /// Mass Concentration PM1.0 \[μg/m³\]
    MassPm1_0(u32),
    /// Mass Concentration PM2.5 \[μg/m³\]
    MassPm2_5(u32),
    /// Mass Concentration PM4.0 \[μg/m³\]
    MassPm4_0(u32),
    /// Mass Concentration PM10 \[μg/m³\]
    MassPm10(u32),
    /// Number Concentration PM0.5 \[#/cm³\]
    MassPm0_5(u32),
    /// Number Concentration PM1.0 \[#/cm³\]
    NumberPm1_0(u32),
    /// Number Concentration PM2.5 \[#/cm³\]
    NumberPm2_5(u32),
    /// Number Concentration PM4.0 \[#/cm³\]
    NumberPm4_0(u32),
    /// Number Concentration PM10 \[#/cm³\]
    NumberPm10(u32),
    /// Typical Particle Size \[μm\]
    TypicalParticleSize(u32),
}

/// Number of distinct leaves below the bed.
pub const N_LEAVES: u8 = 18;

impl Reading {
    /// Position of this leaf among its siblings.
    pub open spec fn id(self) -> u8 {
        match self {
            Reading::Brightness(_) => 0,
            Reading::Temperature(_) => 1,
            Reading::Humidity(_) => 2,
            Reading::GassResistance(_) => 3,
            Reading::Pressure(_) => 4,
            Reading::Co2(_) => 5,
            Reading::WeightLeft(_) => 6,
            Reading::WeightRight(_) => 7,
            Reading::MassPm1_0(_) => 8,
            Reading::MassPm2_5(_) => 9,
            Reading::MassPm4_0(_) => 10,
            Reading::MassPm10(_) => 11,
            Reading::MassPm0_5(_) => 12,
            Reading::NumberPm1_0(_) => 13,
            Reading::NumberPm2_5(_) => 14,
            Reading::NumberPm4_0(_) => 15,
            Reading::NumberPm10(_) => 16,
            Reading::TypicalParticleSize(_) => 17,
        }
    }

    /// The payload as a 32 bit word.
    pub open spec fn bits(self) -> u32 {
        match self {
            Reading::Brightness(v) => v,
            Reading::Temperature(v) => v,
            Reading::Humidity(v) => v,
            Reading::GassResistance(v) => v,
            Reading::Pressure(v) => v,
            Reading::Co2(v) => v as u32,
            Reading::WeightLeft(v) => v,
            Reading::WeightRight(v) => v,
            Reading::MassPm1_0(v) => v,
            Reading::MassPm2_5(v) => v,
            Reading::MassPm4_0(v) => v,
            Reading::MassPm10(v) => v,
            Reading::MassPm0_5(v) => v,
            Reading::NumberPm1_0(v) => v,
            Reading::NumberPm2_5(v) => v,
            Reading::NumberPm4_0(v) => v,
            Reading::NumberPm10(v) => v,
            Reading::TypicalParticleSize(v) => v,
        }
    }

    /// The leaf with id `id` holding the payload `bits`, if there is such a
    /// leaf and the payload fits its type.
    pub open spec fn of_parts(id: u8, bits: u32) -> Option<Reading> {
        if id == 0 {
            Some(Reading::Brightness(bits))
        } else if id == 1 {
            Some(Reading::Temperature(bits))
        } else if id == 2 {
            Some(Reading::Humidity(bits))
        } else if id == 3 {
            Some(Reading::GassResistance(bits))
        } else if id == 4 {
            Some(Reading::Pressure(bits))
        } else if id == 5 {
            if bits <= u16::MAX {
                Some(Reading::Co2(bits as u16))
            } else {
                None
            }
        } else if id == 6 {
            Some(Reading::WeightLeft(bits))
        } else if id == 7 {
            Some(Reading::WeightRight(bits))
        } else if id == 8 {
            Some(Reading::MassPm1_0(bits))
        } else if id == 9 {
            Some(Reading::MassPm2_5(bits))
        } else if id == 10 {
            Some(Reading::MassPm4_0(bits))
        } else if id == 11 {
            Some(Reading::MassPm10(bits))
        } else if id == 12 {
            Some(Reading::MassPm0_5(bits))
        } else if id == 13 {
            Some(Reading::NumberPm1_0(bits))
        } else if id == 14 {
            Some(Reading::NumberPm2_5(bits))
        } else if id == 15 {
            Some(Reading::NumberPm4_0(bits))
        } else if id == 16 {
            Some(Reading::NumberPm10(bits))
        } else if id == 17 {
            Some(Reading::TypicalParticleSize(bits))
        } else {
            None
        }
    }

    /// The device that produces this leaf.
    pub open spec fn dev(self) -> Device {
        match self {
            Reading::Brightness(_) => Device::Max44,
            Reading::Temperature(_) => Device::Sht31,
            Reading::Humidity(_) => Device::Sht31,
            Reading::GassResistance(_) => Device::Bme680,
            Reading::Pressure(_) => Device::Bme680,
            Reading::Co2(_) => Device::Mhz14,
            Reading::WeightLeft(_) => Device::Nau7802Left,
            Reading::WeightRight(_) => Device::Nau7802Right,
            _ => Device::Sps30,
        }
    }

    /// Range `(lo, hi)` and resolution of this leaf, in thousandths of its unit.
    pub open spec fn spec_limits(self) -> (int, int, int) {
        match self {
            Reading::Brightness(_) => (0, 188_000_000, 45),
            Reading::Temperature(_) => (-20_000, 60_000, 10),
            Reading::Humidity(_) => (0, 100_000, 10),
            Reading::GassResistance(_) => (0, 5_000_000_000, 1000),
            Reading::Pressure(_) => (30_000_000, 110_000_000, 1000),
            Reading::Co2(_) => (0, 65_535_000, 1000),
            Reading::WeightLeft(_) => (0, 4_294_967_295_000, 1000),
            Reading::WeightRight(_) => (0, 4_294_967_295_000, 1000),
            Reading::MassPm1_0(_) => (0, 1_000_000, 100),
            Reading::MassPm2_5(_) => (0, 1_000_000, 100),
            Reading::MassPm4_0(_) => (0, 1_000_000, 100),
            Reading::MassPm10(_) => (0, 1_000_000, 100),
            Reading::MassPm0_5(_) => (0, 3_000_000, 100),
            Reading::NumberPm1_0(_) => (0, 3_000_000, 100),
            Reading::NumberPm2_5(_) => (0, 3_000_000, 100),
            Reading::NumberPm4_0(_) => (0, 3_000_000, 100),
            Reading::NumberPm10(_) => (0, 3_000_000, 100),
            Reading::TypicalParticleSize(_) => (0, 10_000, 10),
        }
    }

    pub fn branch_id(&self) -> (r: u8)
        ensures
            r == self.id(),
            r < N_LEAVES,
    {
        match self {
            Reading::Brightness(_) => 0,
            Reading::Temperature(_) => 1,
            Reading::Humidity(_) => 2,
            Reading::GassResistance(_) => 3,
            Reading::Pressure(_) => 4,
            Reading::Co2(_) => 5,
            Reading::WeightLeft(_) => 6,
            Reading::WeightRight(_) => 7,
            Reading::MassPm1_0(_) => 8,
            Reading::MassPm2_5(_) => 9,
            Reading::MassPm4_0(_) => 10,
            Reading::MassPm10(_) => 11,
            Reading::MassPm0_5(_) => 12,
            Reading::NumberPm1_0(_) => 13,
            Reading::NumberPm2_5(_) => 14,
            Reading::NumberPm4_0(_) => 15,
            Reading::NumberPm10(_) => 16,
            Reading::TypicalParticleSize(_) => 17,
        }
    }

    pub fn value_bits(&self) -> (r: u32)
        ensures
            r == self.bits(),
    {
        match *self {
            Reading::Brightness(v) => v,
            Reading::Temperature(v) => v,
            Reading::Humidity(v) => v,
            Reading::GassResistance(v) => v,
            Reading::Pressure(v) => v,
            Reading::Co2(v) => v as u32,
            Reading::WeightLeft(v) => v,
            Reading::WeightRight(v) => v,
            Reading::MassPm1_0(v) => v,
            Reading::MassPm2_5(v) => v,
            Reading::MassPm4_0(v) => v,
            Reading::MassPm10(v) => v,
            Reading::MassPm0_5(v) => v,
            Reading::NumberPm1_0(v) => v,
            Reading::NumberPm2_5(v) => v,
            Reading::NumberPm4_0(v) => v,
            Reading::NumberPm10(v) => v,
            Reading::TypicalParticleSize(v) => v,
        }
    }

    pub fn from_parts(id: u8, bits: u32) -> (r: Option<Reading>)
        ensures
            r == Reading::of_parts(id, bits),
    {
        if id == 0 {
            Some(Reading::Brightness(bits))
        } else if id == 1 {
            Some(Reading::Temperature(bits))
        } else if id == 2 {
            Some(Reading::Humidity(bits))
        } else if id == 3 {
            Some(Reading::GassResistance(bits))
        } else if id == 4 {
            Some(Reading::Pressure(bits))
        } else if id == 5 {
            if bits <= u16::MAX as u32 {
                Some(Reading::Co2(bits as u16))
            } else {
                None
            }
        } else if id == 6 {
            Some(Reading::WeightLeft(bits))
        } else if id == 7 {
            Some(Reading::WeightRight(bits))
        } else if id == 8 {
            Some(Reading::MassPm1_0(bits))
        } else if id == 9 {
            Some(Reading::MassPm2_5(bits))
        } else if id == 10 {
            Some(Reading::MassPm4_0(bits))
        } else if id == 11 {
            Some(Reading::MassPm10(bits))
        } else if id == 12 {
            Some(Reading::MassPm0_5(bits))
        } else if id == 13 {
            Some(Reading::NumberPm1_0(bits))
        } else if id == 14 {
            Some(Reading::NumberPm2_5(bits))
        } else if id == 15 {
            Some(Reading::NumberPm4_0(bits))
        } else if id == 16 {
            Some(Reading::NumberPm10(bits))
        } else if id == 17 {
            Some(Reading::TypicalParticleSize(bits))
        } else {
            None
        }
    }

    pub fn device(&self) -> (r: Device)
        ensures
            r == self.dev(),
    {
        match self {
            Reading::Brightness(_) => Device::Max44,
            Reading::Temperature(_) => Device::Sht31,
            Reading::Humidity(_) => Device::Sht31,
            Reading::GassResistance(_) => Device::Bme680,
            Reading::Pressure(_) => Device::Bme680,
            Reading::Co2(_) => Device::Mhz14,
            Reading::WeightLeft(_) => Device::Nau7802Left,
            Reading::WeightRight(_) => Device::Nau7802Right,
            _ => Device::Sps30,
        }
    }

    /// Range and resolution of this leaf, in thousandths of its unit.
    pub fn limits(&self) -> (r: (i64, i64, u32))
        ensures
            r.0 as int == self.spec_limits().0,
            r.1 as int == self.spec_limits().1,
            r.2 as int == self.spec_limits().2,
            r.0 < r.1,
            r.2 > 0,
    {
        match self {
            Reading::Brightness(_) => (0, 188_000_000, 45),
            Reading::Temperature(_) => (-20_000, 60_000, 10),
            Reading::Humidity(_) => (0, 100_000, 10),
            Reading::GassResistance(_) => (0, 5_000_000_000, 1000),
            Reading::Pressure(_) => (30_000_000, 110_000_000, 1000),
            Reading::Co2(_) => (0, 65_535_000, 1000),
            Reading::WeightLeft(_) => (0, 4_294_967_295_000, 1000),
            Reading::WeightRight(_) => (0, 4_294_967_295_000, 1000),
            Reading::MassPm1_0(_) => (0, 1_000_000, 100),
            Reading::MassPm2_5(_) => (0, 1_000_000, 100),
            Reading::MassPm4_0(_) => (0, 1_000_000, 100),
            Reading::MassPm10(_) => (0, 1_000_000, 100),
            Reading::MassPm0_5(_) => (0, 3_000_000, 100),
            Reading::NumberPm1_0(_) => (0, 3_000_000, 100),
            Reading::NumberPm2_5(_) => (0, 3_000_000, 100),
            Reading::NumberPm4_0(_) => (0, 3_000_000, 100),
            Reading::NumberPm10(_) => (0, 3_000_000, 100),
            Reading::TypicalParticleSize(_) => (0, 10_000, 10),
        }
    }
}

impl Reading {
    /// Name of this leaf in the tree.
    pub open spec fn spec_name(self) -> Seq<char> {
        match self {
            Reading::Brightness(_) => "Brightness"@,
            Reading::Temperature(_) => "Temperature"@,
            Reading::Humidity(_) => "Humidity"@,
            Reading::GassResistance(_) => "GassResistance"@,
            Reading::Pressure(_) => "Pressure"@,
            Reading::Co2(_) => "Co2"@,
            Reading::WeightLeft(_) => "WeightLeft"@,
            Reading::WeightRight(_) => "WeightRight"@,
            Reading::MassPm1_0(_) => "MassPm1_0"@,
            Reading::MassPm2_5(_) => "MassPm2_5"@,
            Reading::MassPm4_0(_) => "MassPm4_0"@,
            Reading::MassPm10(_) => "MassPm10"@,
            Reading::MassPm0_5(_) => "MassPm0_5"@,
            Reading::NumberPm1_0(_) => "NumberPm1_0"@,
            Reading::NumberPm2_5(_) => "NumberPm2_5"@,
            Reading::NumberPm4_0(_) => "NumberPm4_0"@,
            Reading::NumberPm10(_) => "NumberPm10"@,
            Reading::TypicalParticleSize(_) => "TypicalParticleSize"@,
        }
    }

    pub fn name(&self) -> (r: &'static str)
        ensures
            r@ == self.spec_name(),
    {
        match self {
            Reading::Brightness(_) => "Brightness",
            Reading::Temperature(_) => "Temperature",
            Reading::Humidity(_) => "Humidity",
            Reading::GassResistance(_) => "GassResistance",
            Reading::Pressure(_) => "Pressure",
            Reading::Co2(_) => "Co2",
            Reading::WeightLeft(_) => "WeightLeft",
            Reading::WeightRight(_) => "WeightRight",
            Reading::MassPm1_0(_) => "MassPm1_0",
            Reading::MassPm2_5(_) => "MassPm2_5",
            Reading::MassPm4_0(_) => "MassPm4_0",
            Reading::MassPm10(_) => "MassPm10",
            Reading::MassPm0_5(_) => "MassPm0_5",
            Reading::NumberPm1_0(_) => "NumberPm1_0",
            Reading::NumberPm2_5(_) => "NumberPm2_5",
            Reading::NumberPm4_0(_) => "NumberPm4_0",
            Reading::NumberPm10(_) => "NumberPm10",
            Reading::TypicalParticleSize(_) => "TypicalParticleSize",
        }
    }
}

/// Every leaf is rebuilt from its id and payload.
pub proof fn lemma_parts_rebuild(r: Reading)
    ensures
        Reading::of_parts(r.id(), r.bits()) == Some(r),
{
}

/// A sensor attached to the bed node.
#[derive(Clone, Copy, Debug, PartialEq, Eq, Structural)]
pub enum Device {
    Sht31,
    Bme680,
    Max44,
    Mhz14,
    Sps30,
    Nau7802Left,
    Nau7802Right,
}

impl Device {
    pub open spec fn id(self) -> u8 {
        match self {
            Device::Sht31 => 0,
            Device::Bme680 => 1,
            Device::Max44 => 2,
            Device::Mhz14 => 3,
            Device::Sps30 => 4,
            Device::Nau7802Left => 5,
            Device::Nau7802Right => 6,
        }
    }

    pub open spec fn of_id(id: u8) -> Option<Device> {
        if id == 0 {
            Some(Device::Sht31)
        } else if id == 1 {
            Some(Device::Bme680)
        } else if id == 2 {
            Some(Device::Max44)
        } else if id == 3 {
            Some(Device::Mhz14)
        } else if id == 4 {
            Some(Device::Sps30)
        } else if id == 5 {
            Some(Device::Nau7802Left)
        } else if id == 6 {
            Some(Device::Nau7802Right)
        } else {
            None
        }
    }

    pub open spec fn name(self) -> Seq<char> {
        match self {
            Device::Sht31 => "Sht31"@,
            Device::Bme680 => "Bme680"@,
            Device::Max44 => "Max44"@,
            Device::Mhz14 => "Mhz14"@,
            Device::Sps30 => "Sps30"@,
            Device::Nau7802Left => "Nau7802Left"@,
            Device::Nau7802Right => "Nau7802Right"@,
        }
    }

    /// The leaves this device produces, in the order a series stores them.
    pub open spec fn readings(self) -> Seq<Reading> {
        match self {
            Device::Sht31 => seq![Reading::Temperature(0), Reading::Humidity(0)],
            Device::Bme680 => seq![Reading::GassResistance(0), Reading::Pressure(0)],
            Device::Max44 => seq![Reading::Brightness(0)],
            Device::Mhz14 => seq![Reading::Co2(0)],
            Device::Sps30 => seq![
                Reading::MassPm1_0(0),
                Reading::MassPm2_5(0),
                Reading::MassPm4_0(0),
                Reading::MassPm10(0),
                Reading::MassPm0_5(0),
                Reading::NumberPm1_0(0),
                Reading::NumberPm2_5(0),
                Reading::NumberPm4_0(0),
                Reading::NumberPm10(0),
                Reading::TypicalParticleSize(0),
            ],
            Device::Nau7802Left => seq![Reading::WeightLeft(0)],
            Device::Nau7802Right => seq![Reading::WeightRight(0)],
        }
    }

    pub fn device_id(&self) -> (r: u8)
        ensures
            r == self.id(),
    {
        match self {
            Device::Sht31 => 0,
            Device::Bme680 => 1,
            Device::Max44 => 2,
            Device::Mhz14 => 3,
            Device::Sps30 => 4,
            Device::Nau7802Left => 5,
            Device::Nau7802Right => 6,
        }
    }

    pub fn from_id(id: u8) -> (r: Option<Device>)
        ensures
            r == Device::of_id(id),
    {
        if id == 0 {
            Some(Device::Sht31)
        } else if id == 1 {
            Some(Device::Bme680)
        } else if id == 2 {
            Some(Device::Max44)
        } else if id == 3 {
            Some(Device::Mhz14)
        } else if id == 4 {
            Some(Device::Sps30)
        } else if id == 5 {
            Some(Device::Nau7802Left)
        } else if id == 6 {
            Some(Device::Nau7802Right)
        } else {
            None
        }
    }

    pub fn as_str(&self) -> (r: &'static str)
        ensures
            r@ == self.name(),
    {
        match self {
            Device::Sht31 => "Sht31",
            Device::Bme680 => "Bme680",
            Device::Max44 => "Max44",
            Device::Mhz14 => "Mhz14",
            Device::Sps30 => "Sps30",
            Device::Nau7802Left => "Nau7802Left",
            Device::Nau7802Right => "Nau7802Right",
        }
    }

    /// The readings that become unknown when this device fails.
    pub fn broken_readings(&self) -> (r: Vec<Reading>)
        ensures
            r@ == self.readings(),
    {
        let r = match self {
            Device::Sht31 => vec![Reading::Temperature(0), Reading::Humidity(0)],
            Device::Bme680 => vec![Reading::GassResistance(0), Reading::Pressure(0)],
            Device::Max44 => vec![Reading::Brightness(0)],
            Device::Mhz14 => vec![Reading::Co2(0)],
            Device::Sps30 => vec![
                Reading::MassPm1_0(0),
                Reading::MassPm2_5(0),
                Reading::MassPm4_0(0),
                Reading::MassPm10(0),
                Reading::MassPm0_5(0),
                Reading::NumberPm1_0(0),
                Reading::NumberPm2_5(0),
                Reading::NumberPm4_0(0),
                Reading::NumberPm10(0),
                Reading::TypicalParticleSize(0),
            ],
            Device::Nau7802Left => vec![Reading::WeightLeft(0)],
            Device::Nau7802Right => vec![Reading::WeightRight(0)],
        };
        assert(r@ =~= self.readings());
        r
    }
}

/// Every leaf belongs to the reading list of its own device.
pub proof fn lemma_leaf_in_device(r: Reading)
    ensures
        exists|i: int|
            0 <= i < r.dev().readings().len() && #[trigger] r.dev().readings()[i].id() == r.id(),
{
    match r {
        Reading::Brightness(_) => assert(r.dev().readings()[0].id() == r.id()),
        Reading::Temperature(_) => assert(r.dev().readings()[0].id() == r.id()),
        Reading::Humidity(_) => assert(r.dev().readings()[1].id() == r.id()),
        Reading::GassResistance(_) => assert(r.dev().readings()[0].id() == r.id()),
        Reading::Pressure(_) => assert(r.dev().readings()[1].id() == r.id()),
        Reading::Co2(_) => assert(r.dev().readings()[0].id() == r.id()),
        Reading::WeightLeft(_) => assert(r.dev().readings()[0].id() == r.id()),
        Reading::WeightRight(_) => assert(r.dev().readings()[0].id() == r.id()),
        Reading::MassPm1_0(_) => assert(r.dev().readings()[0].id() == r.id()),
        Reading::MassPm2_5(_) => assert(r.dev().readings()[1].id() == r.id()),
        Reading::MassPm4_0(_) => assert(r.dev().readings()[2].id() == r.id()),
        Reading::MassPm10(_) => assert(r.dev().readings()[3].id() == r.id()),
        Reading::MassPm0_5(_) => assert(r.dev().readings()[4].id() == r.id()),
        Reading::NumberPm1_0(_) => assert(r.dev().readings()[5].id() == r.id()),
        Reading::NumberPm2_5(_) => assert(r.dev().readings()[6].id() == r.id()),
        Reading::NumberPm4_0(_) => assert(r.dev().readings()[7].id() == r.id()),
        Reading::NumberPm10(_) => assert(r.dev().readings()[8].id() == r.id()),
        Reading::TypicalParticleSize(_) => assert(r.dev().readings()[9].id() == r.id()),
    }
}

/// Longest message a sensor error carries, in bytes.
pub const MAX_MESSAGE_LEN: usize = 200;

/// A failure reported by a sensor driver, with the driver's message.
#[derive(Clone, Debug)]
pub enum SensorError {
    Sht31(Vec<u8>),
    Bme680(Vec<u8>),
    Max44(Vec<u8>),
    Mhz14(Vec<u8>),
    Sps30(Vec<u8>),
    Nau7802Left(Vec<u8>),
    Nau7802Right(Vec<u8>),
}

impl SensorError {
    pub open spec fn dev(&self) -> Device {
        match self {
            SensorError::Sht31(_) => Device::Sht31,
            SensorError::Bme680(_) => Device::Bme680,
            SensorError::Max44(_) => Device::Max44,
            SensorError::Mhz14(_) => Device::Mhz14,
            SensorError::Sps30(_) => Device::Sps30,
            SensorError::Nau7802Left(_) => Device::Nau7802Left,
            SensorError::Nau7802Right(_) => Device::Nau7802Right,
        }
    }

    pub open spec fn msg(&self) -> Seq<u8> {
        match self {
            SensorError::Sht31(m) => m@,
            SensorError::Bme680(m) => m@,
            SensorError::Max44(m) => m@,
            SensorError::Mhz14(m) => m@,
            SensorError::Sps30(m) => m@,
            SensorError::Nau7802Left(m) => m@,
            SensorError::Nau7802Right(m) => m@,
        }
    }

    pub open spec fn wf(&self) -> bool {
        self.msg().len() <= MAX_MESSAGE_LEN
    }

    pub fn device(&self) -> (r: Device)
        ensures
            r == self.dev(),
    {
        match self {
            SensorError::Sht31(_) => Device::Sht31,
            SensorError::Bme680(_) => Device::Bme680,
            SensorError::Max44(_) => Device::Max44,
            SensorError::Mhz14(_) => Device::Mhz14,
            SensorError::Sps30(_) => Device::Sps30,
            SensorError::Nau7802Left(_) => Device::Nau7802Left,
            SensorError::Nau7802Right(_) => Device::Nau7802Right,
        }
    }

    pub fn message(&self) -> (r: &Vec<u8>)
        ensures
            r@ == self.msg(),
    {
        match self {
            SensorError::Sht31(m) => m,
            SensorError::Bme680(m) => m,
            SensorError::Max44(m) => m,
            SensorError::Mhz14(m) => m,
            SensorError::Sps30(m) => m,
            SensorError::Nau7802Left(m) => m,
            SensorError::Nau7802Right(m) => m,
        }
    }

    pub fn new(device: Device, message: Vec<u8>) -> (r: SensorError)
        ensures
            r.dev() == device,
            r.msg() == message@,
    {
        match device {
            Device::Sht31 => SensorError::Sht31(message),
            Device::Bme680 => SensorError::Bme680(message),
            Device::Max44 => SensorError::Max44(message),
            Device::Mhz14 => SensorError::Mhz14(message),
            Device::Sps30 => SensorError::Sps30(message),
            Device::Nau7802Left => SensorError::Nau7802Left(message),
            Device::Nau7802Right => SensorError::Nau7802Right(message),
        }
    }
}

/// What went wrong on this node, and with which device.
#[derive(Clone, Debug)]
pub enum Error {
    Running(SensorError),
    Setup(SensorError),
    SetupTimedOut(Device),
    Timeout(Device),
}

impl Error {
    /// 0 running, 1 setup, 2 setup timed out, 3 timed out.
    pub open spec fn cause(&self) -> u8 {
        match self {
            Error::Running(_) => 0,
            Error::Setup(_) => 1,
            Error::SetupTimedOut(_) => 2,
            Error::Timeout(_) => 3,
        }
    }

    pub open spec fn dev(&self) -> Device {
        match self {
            Error::Running(e) => e.dev(),
            Error::Setup(e) => e.dev(),
            Error::SetupTimedOut(d) => *d,
            Error::Timeout(d) => *d,
        }
    }

    /// The driver's message; empty for a timeout.
    pub open spec fn msg(&self) -> Seq<u8> {
        match self {
            Error::Running(e) => e.msg(),
            Error::Setup(e) => e.msg(),
            _ => Seq::empty(),
        }
    }

    pub open spec fn wf(&self) -> bool {
        self.msg().len() <= MAX_MESSAGE_LEN
    }

    pub fn cause_id(&self) -> (r: u8)
        ensures
            r == self.cause(),
    {
        match self {
            Error::Running(_) => 0,
            Error::Setup(_) => 1,
            Error::SetupTimedOut(_) => 2,
            Error::Timeout(_) => 3,
        }
    }

    pub fn device(&self) -> (r: Device)
        ensures
            r == self.dev(),
    {
        match self {
            Error::Running(e) => e.device(),
            Error::Setup(e) => e.device(),
            Error::SetupTimedOut(d) => *d,
            Error::Timeout(d) => *d,
        }
    }

    /// The message carried, if the cause carries one.
    pub fn message(&self) -> (r: Option<&Vec<u8>>)
        ensures
            (self.cause() < 2) == r.is_some(),
            r.is_some() ==> r.unwrap()@ == self.msg(),
    {
        match self {
            Error::Running(e) => Some(e.message()),
            Error::Setup(e) => Some(e.message()),
            _ => None,
        }
    }

    /// Builds the error with cause `cause` (see [`Error::cause`]).
    pub fn from_parts(cause: u8, device: Device, message: Vec<u8>) -> (r: Option<Error>)
        ensures
            r.is_some() == (cause < 4),
            r.is_some() ==> r.unwrap().cause() == cause && r.unwrap().dev() == device,
            r.is_some() && cause < 2 ==> r.unwrap().msg() == message@,
            r.is_some() && cause >= 2 ==> r.unwrap().msg() == Seq::<u8>::empty(),
    {
        if cause == 0 {
            Some(Error::Running(SensorError::new(device, message)))
        } else if cause == 1 {
            Some(Error::Setup(SensorError::new(device, message)))
        } else if cause == 2 {
            Some(Error::SetupTimedOut(device))
        } else if cause == 3 {
            Some(Error::Timeout(device))
        } else {
            None
        }
    }

    /// The readings this error leaves unknown: all of its device's.
    pub fn affected_readings(&self) -> (r: Vec<Reading>)
        ensures
            r@ == self.dev().readings(),
    {
        self.device().broken_readings()
    }
}

} // verus!
