//! The large bedroom: the bed node and the desk node.
use vstd::prelude::*;

pub mod bed;
pub mod desk;

verus! {

/// A reading taken somewhere in the large bedroom.
#[derive(Clone, Copy, Debug, PartialEq, Eq, Structural)]
pub enum Reading {
    Bed(bed::Reading),
    Desk(desk::Reading),
}

impl Reading {
    /// Position of the sub-location among its siblings.
    pub open spec fn id(self) -> u8 {
        match self {
            Reading::Bed(_) => 0,
            Reading::Desk(_) => 1,
        }
    }

    pub open spec fn leaf_id(self) -> u8 {
        match self {
            Reading::Bed(r) => r.id(),
            Reading::Desk(r) => r.id(),
        }
    }

    pub open spec fn bits(self) -> u32 {
        match self {
            Reading::Bed(r) => r.bits(),
            Reading::Desk(r) => r.bits(),
        }
    }

    pub open spec fn of_parts(id: u8, leaf: u8, bits: u32) -> Option<Reading> {
        if id == 0 {
            match bed::Reading::of_parts(leaf, bits) {
                Some(r) => Some(Reading::Bed(r)),
                None => None,
            }
        } else if id == 1 {
            match desk::Reading::of_parts(leaf, bits) {
                Some(r) => Some(Reading::Desk(r)),
                None => None,
            }
        } else {
            None
        }
    }

    pub open spec fn dev(self) -> Device {
        match self {
            Reading::Bed(r) => Device::Bed(r.dev()),
            Reading::Desk(r) => Device::Desk(r.dev()),
        }
    }

    pub open spec fn spec_limits(self) -> (int, int, int) {
        match self {
            Reading::Bed(r) => r.spec_limits(),
            Reading::Desk(r) => r.spec_limits(),
        }
    }

    pub fn branch_id(&self) -> (r: u8)
        ensures
            r == self.id(),
    {
        match self {
            Reading::Bed(_) => 0,
            Reading::Desk(_) => 1,
        }
    }

    /// Name of the sub-location.
    pub open spec fn spec_name(self) -> Seq<char> {
        match self {
            Reading::Bed(_) => "Bed"@,
            Reading::Desk(_) => "Desk"@,
        }
    }

    pub open spec fn spec_leaf_name(self) -> Seq<char> {
        match self {
            Reading::Bed(r) => r.spec_name(),
            Reading::Desk(r) => r.spec_name(),
        }
    }

    pub fn name(&self) -> (r: &'static str)
        ensures
            r@ == self.spec_name(),
    {
        match self {
            Reading::Bed(_) => "Bed",
            Reading::Desk(_) => "Desk",
        }
    }

    pub fn leaf_name(&self) -> (r: &'static str)
        ensures
            r@ == self.spec_leaf_name(),
    {
        match self {
            Reading::Bed(r) => r.name(),
            Reading::Desk(r) => r.name(),
        }
    }

    pub fn leaf_branch_id(&self) -> (r: u8)
        ensures
            r == self.leaf_id(),
    {
        match self {
            Reading::Bed(r) => r.branch_id(),
            Reading::Desk(r) => r.branch_id(),
        }
    }

    pub fn value_bits(&self) -> (r: u32)
        ensures
            r == self.bits(),
    {
        match self {
            Reading::Bed(r) => r.value_bits(),
            Reading::Desk(r) => r.value_bits(),
        }
    }

    pub fn from_parts(id: u8, leaf: u8, bits: u32) -> (r: Option<Reading>)
        ensures
            r == Reading::of_parts(id, leaf, bits),
    {
        if id == 0 {
            match bed::Reading::from_parts(leaf, bits) {
                Some(r) => Some(Reading::Bed(r)),
                None => None,
            }
        } else if id == 1 {
            match desk::Reading::from_parts(leaf, bits) {
                Some(r) => Some(Reading::Desk(r)),
                None => None,
            }
        } else {
            None
        }
    }

    pub fn device(&self) -> (r: Device)
        ensures
            r == self.dev(),
    {
        match self {
            Reading::Bed(r) => Device::Bed(r.device()),
            Reading::Desk(r) => Device::Desk(r.device()),
        }
    }

    pub fn limits(&self) -> (r: (i64, i64, u32))
        ensures
            r.0 as int == self.spec_limits().0,
            r.1 as int == self.spec_limits().1,
            r.2 as int == self.spec_limits().2,
            r.0 < r.1,
            r.2 > 0,
    {
        match self {
            Reading::Bed(r) => r.limits(),
            Reading::Desk(r) => r.limits(),
        }
    }
}

/// Every reading is rebuilt from its ids and payload.
pub proof fn lemma_parts_rebuild(r: Reading)
    ensures
        Reading::of_parts(r.id(), r.leaf_id(), r.bits()) == Some(r),
{
    match r {
        Reading::Bed(b) => bed::lemma_parts_rebuild(b),
        Reading::Desk(d) => desk::lemma_parts_rebuild(d),
    }
}

/// A device somewhere in the large bedroom.
#[derive(Clone, Copy, Debug, PartialEq, Eq, Structural)]
pub enum Device {
    Bed(bed::Device),
    Desk(desk::Device),
}

impl Device {
    pub open spec fn id(self) -> u8 {
        match self {
            Device::Bed(_) => 0,
            Device::Desk(_) => 1,
        }
    }

    pub open spec fn dev_id(self) -> u8 {
        match self {
            Device::Bed(d) => d.id(),
            Device::Desk(d) => d.id(),
        }
    }

    pub open spec fn of_ids(id: u8, dev: u8) -> Option<Device> {
        if id == 0 {
            match bed::Device::of_id(dev) {
                Some(d) => Some(Device::Bed(d)),
                None => None,
            }
        } else if id == 1 {
            match desk::Device::of_id(dev) {
                Some(d) => Some(Device::Desk(d)),
                None => None,
            }
        } else {
            None
        }
    }

    pub open spec fn name(self) -> Seq<char> {
        match self {
            Device::Bed(d) => d.name(),
            Device::Desk(d) => d.name(),
        }
    }

    pub open spec fn node_name(self) -> Seq<char> {
        match self {
            Device::Bed(_) => "Bed"@,
            Device::Desk(_) => "Desk"@,
        }
    }

    pub open spec fn readings(self) -> Seq<Reading> {
        match self {
            Device::Bed(d) => d.readings().map_values(|r: bed::Reading| Reading::Bed(r)),
            Device::Desk(d) => d.readings().map_values(|r: desk::Reading| Reading::Desk(r)),
        }
    }

    pub fn branch_id(&self) -> (r: u8)
        ensures
            r == self.id(),
    {
        match self {
            Device::Bed(_) => 0,
            Device::Desk(_) => 1,
        }
    }

    pub fn device_id(&self) -> (r: u8)
        ensures
            r == self.dev_id(),
    {
        match self {
            Device::Bed(d) => d.device_id(),
            Device::Desk(d) => d.device_id(),
        }
    }

    pub fn from_ids(id: u8, dev: u8) -> (r: Option<Device>)
        ensures
            r == Device::of_ids(id, dev),
    {
        if id == 0 {
            match bed::Device::from_id(dev) {
                Some(d) => Some(Device::Bed(d)),
                None => None,
            }
        } else if id == 1 {
            match desk::Device::from_id(dev) {
                Some(d) => Some(Device::Desk(d)),
                None => None,
            }
        } else {
            None
        }
    }

    pub fn as_str(&self) -> (r: &'static str)
        ensures
            r@ == self.name(),
    {
        match self {
            Device::Bed(d) => d.as_str(),
            Device::Desk(d) => d.as_str(),
        }
    }

    /// Name of the sub-location the device sits in.
    pub fn node_str(&self) -> (r: &'static str)
        ensures
            r@ == self.node_name(),
    {
        match self {
            Device::Bed(_) => "Bed",
            Device::Desk(_) => "Desk",
        }
    }

    pub fn broken_readings(&self) -> (r: Vec<Reading>)
        ensures
            r@ == self.readings(),
    {
        let mut r: Vec<Reading> = Vec::new();
        match self {
            Device::Bed(d) => {
                let list = d.broken_readings();
                for i in 0..list.len()
                    invariant
                        list@ == d.readings(),
                        r@.len() == i,
                        forall|j: int| 0 <= j < i ==> r@[j] == Reading::Bed(#[trigger] list@[j]),
                {
                    r.push(Reading::Bed(list[i]));
                }
                assert(r@ =~= self.readings());
            },
            Device::Desk(d) => {
                let list = d.broken_readings();
                for i in 0..list.len()
                    invariant
                        list@ == d.readings(),
                        r@.len() == i,
                        forall|j: int| 0 <= j < i ==> r@[j] == Reading::Desk(#[trigger] list@[j]),
                {
                    r.push(Reading::Desk(list[i]));
                }
                assert(r@ =~= self.readings());
            },
        }
        r
    }
}

/// An error from a node in the large bedroom.
#[derive(Clone, Debug)]
pub enum Error {
    Bed(bed::Error),
    Desk(desk::Error),
}

impl Error {
    pub open spec fn id(&self) -> u8 {
        match self {
            Error::Bed(_) => 0,
            Error::Desk(_) => 1,
        }
    }

    pub open spec fn cause(&self) -> u8 {
        match self {
            Error::Bed(e) => e.cause(),
            Error::Desk(e) => e.cause(),
        }
    }

    pub open spec fn dev(&self) -> Device {
        match self {
            Error::Bed(e) => Device::Bed(e.dev()),
            Error::Desk(e) => Device::Desk(e.dev()),
        }
    }

    pub open spec fn msg(&self) -> Seq<u8> {
        match self {
            Error::Bed(e) => e.msg(),
            Error::Desk(e) => e.msg(),
        }
    }

    pub fn cause_id(&self) -> (r: u8)
        ensures
            r == self.cause(),
    {
        match self {
            Error::Bed(e) => e.cause_id(),
            Error::Desk(e) => e.cause_id(),
        }
    }

    pub fn device(&self) -> (r: Device)
        ensures
            r == self.dev(),
    {
        match self {
            Error::Bed(e) => Device::Bed(e.device()),
            Error::Desk(e) => Device::Desk(e.device()),
        }
    }

    pub fn message(&self) -> (r: Option<&Vec<u8>>)
        ensures
            (self.cause() < 2) == r.is_some(),
            r.is_some() ==> r.unwrap()@ == self.msg(),
    {
        match self {
            Error::Bed(e) => e.message(),
            Error::Desk(e) => e.message(),
        }
    }

    pub fn from_parts(cause: u8, device: Device, message: Vec<u8>) -> (r: Option<Error>)
        ensures
            r.is_some() == (cause < 4),
            r.is_some() ==> r.unwrap().cause() == cause && r.unwrap().dev() == device,
            r.is_some() && cause < 2 ==> r.unwrap().msg() == message@,
            r.is_some() && cause >= 2 ==> r.unwrap().msg() == Seq::<u8>::empty(),
    {
        match device {
            Device::Bed(d) => match bed::Error::from_parts(cause, d, message) {
                Some(e) => Some(Error::Bed(e)),
                None => None,
            },
            Device::Desk(d) => match desk::Error::from_parts(cause, d, message) {
                Some(e) => Some(Error::Desk(e)),
                None => None,
            },
        }
    }

    /// The readings this error leaves unknown.
    pub fn broken_readings(&self) -> (r: Vec<Reading>)
        ensures
            r@ == self.dev().readings(),
    {
        self.device().broken_readings()
    }
}

/// A command the bed node carries out on request.
#[derive(Clone, Copy, Debug, PartialEq, Eq, Structural)]
pub enum Actuator {
    CleanSensor,
    CalibrateCo2,
}

impl Actuator {
    /// Version of the actuator command set.
    pub fn version(&self) -> (r: u8)
        ensures
            r == 0,
    {
        0
    }
}

} // verus!
