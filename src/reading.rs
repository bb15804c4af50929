//! The reading tree: every reading is a leaf below a location and a
//! sub-location, produced by exactly one device.
use vstd::prelude::*;

use crate::large_bedroom;

verus! {

/// Depth of the tree key: one byte per level, unused levels zero.
pub const KEY_LEN: usize = 6;

/// A reading anywhere in the house.
#[derive(Clone, Copy, Debug, PartialEq, Eq, Structural)]
pub enum Reading {
    LargeBedroom(large_bedroom::Reading),
}

impl Reading {
    pub open spec fn inner(self) -> large_bedroom::Reading {
        match self {
            Reading::LargeBedroom(r) => r,
        }
    }

    /// The branch ids from the root down to the leaf.
    pub open spec fn path(self) -> Seq<u8> {
        seq![0u8, self.inner().id(), self.inner().leaf_id()]
    }

    /// The tree key: the path padded with zeros to [`KEY_LEN`] bytes.
    pub open spec fn key_of(self) -> Seq<u8> {
        self.path() + seq![0u8, 0u8, 0u8]
    }

    pub open spec fn bits(self) -> u32 {
        self.inner().bits()
    }

    pub open spec fn of_parts(id: u8, room: u8, leaf: u8, bits: u32) -> Option<Reading> {
        if id == 0 {
            match large_bedroom::Reading::of_parts(room, leaf, bits) {
                Some(r) => Some(Reading::LargeBedroom(r)),
                None => None,
            }
        } else {
            None
        }
    }

    /// The same leaf carrying a zero payload.
    pub open spec fn leaf_of(self) -> Reading {
        Reading::of_parts(0, self.inner().id(), self.inner().leaf_id(), 0)->Some_0
    }

    pub open spec fn dev(self) -> Device {
        Device::LargeBedroom(self.inner().dev())
    }

    pub open spec fn spec_limits(self) -> (int, int, int) {
        self.inner().spec_limits()
    }

    pub fn branch_id(&self) -> (r: u8)
        ensures
            r == self.path()[0],
    {
        0
    }

    /// A key that is the same for two readings exactly when they are the
    /// same leaf of the tree.
    pub fn key(&self) -> (r: [u8; 6])
        ensures
            r@ == self.key_of(),
    {
        let Reading::LargeBedroom(inner) = self;
        let r = [0u8, inner.branch_id(), inner.leaf_branch_id(), 0, 0, 0];
        assert(r@ =~= self.key_of());
        r
    }

    pub fn value_bits(&self) -> (r: u32)
        ensures
            r == self.bits(),
    {
        let Reading::LargeBedroom(inner) = self;
        inner.value_bits()
    }

    pub fn from_parts(id: u8, room: u8, leaf: u8, bits: u32) -> (r: Option<Reading>)
        ensures
            r == Reading::of_parts(id, room, leaf, bits),
    {
        if id == 0 {
            match large_bedroom::Reading::from_parts(room, leaf, bits) {
                Some(r) => Some(Reading::LargeBedroom(r)),
                None => None,
            }
        } else {
            None
        }
    }

    pub fn device(&self) -> (r: Device)
        ensures
            r == self.dev(),
    {
        let Reading::LargeBedroom(inner) = self;
        Device::LargeBedroom(inner.device())
    }

    /// Range and resolution of this reading, in thousandths of its unit.
    pub fn limits(&self) -> (r: (i64, i64, u32))
        ensures
            r.0 as int == self.spec_limits().0,
            r.1 as int == self.spec_limits().1,
            r.2 as int == self.spec_limits().2,
            r.0 < r.1,
            r.2 > 0,
    {
        let Reading::LargeBedroom(inner) = self;
        inner.limits()
    }

    /// Name of the root node of this reading.
    pub fn name(&self) -> (r: &'static str)
        ensures
            r@ == "LargeBedroom"@,
    {
        "LargeBedroom"
    }

    /// Names of the nodes from the root down to the leaf.
    pub open spec fn names(self) -> Seq<Seq<char>> {
        seq!["LargeBedroom"@, self.inner().spec_name(), self.inner().spec_leaf_name()]
    }

    /// Name of the leaf.
    pub fn leaf_name(&self) -> (r: &'static str)
        ensures
            r@ == self.names()[2],
    {
        let Reading::LargeBedroom(inner) = self;
        inner.leaf_name()
    }

    /// The leaf's payload, device, range and resolution.
    pub fn leaf(&self) -> (r: ReadingInfo)
        ensures
            r.val == self.bits(),
            r.device == self.dev(),
            r.lo as int == self.spec_limits().0,
            r.hi as int == self.spec_limits().1,
            r.resolution as int == self.spec_limits().2,
    {
        let (lo, hi, resolution) = self.limits();
        ReadingInfo { val: self.value_bits(), device: self.device(), lo, hi, resolution }
    }

    /// Whether both readings are the same leaf, whatever their payloads.
    pub fn is_same_as(&self, other: &Reading) -> (r: bool)
        ensures
            r == (self.leaf_of() == other.leaf_of()),
    {
        proof {
            lemma_key_identifies_leaf(*self, *other);
        }
        let a = self.key();
        let b = other.key();
        a[1] == b[1] && a[2] == b[2]
    }
}

/// What a leaf says about itself: its payload, its device, and its range
/// and resolution in thousandths of its unit.
#[derive(Clone, Copy, Debug, PartialEq, Eq, Structural)]
pub struct ReadingInfo {
    pub val: u32,
    pub device: Device,
    pub lo: i64,
    pub hi: i64,
    pub resolution: u32,
}

/// Every reading is rebuilt from its path and payload.
pub proof fn lemma_parts_rebuild(r: Reading)
    ensures
        Reading::of_parts(r.path()[0], r.path()[1], r.path()[2], r.bits()) == Some(r),
{
    large_bedroom::lemma_parts_rebuild(r.inner());
}

proof fn lemma_leaf_of_path(r: Reading)
    ensures
        Reading::of_parts(0, r.inner().id(), r.inner().leaf_id(), 0).is_some(),
        r.leaf_of().path() == r.path(),
{
    let l = r.leaf_of();
    assert(l.path() =~= r.path());
}

/// Two readings have the same tree key exactly when they share their
/// root-to-leaf path, that is when they are the same leaf.
pub proof fn lemma_key_identifies_leaf(a: Reading, b: Reading)
    ensures
        (a.key_of() == b.key_of()) == (a.leaf_of() == b.leaf_of()),
        (a.key_of() == b.key_of()) == (a.path() == b.path()),
{
    lemma_leaf_of_path(a);
    lemma_leaf_of_path(b);
    if a.key_of() == b.key_of() {
        assert(a.key_of()[1] == b.key_of()[1]);
        assert(a.key_of()[2] == b.key_of()[2]);
        assert(a.path() =~= b.path());
    }
    if a.path() == b.path() {
        assert(a.key_of() =~= b.key_of());
    }
    if a.leaf_of() == b.leaf_of() {
        assert(a.path() =~= b.path());
        assert(a.key_of() =~= b.key_of());
    }
}

/// A device anywhere in the house.
#[derive(Clone, Copy, Debug, PartialEq, Eq, Structural)]
pub enum Device {
    LargeBedroom(large_bedroom::Device),
}

/// What a device measures and how often.
pub struct DeviceInfo {
    pub name: &'static str,
    pub affects_readings: Vec<Reading>,
    pub min_sample_interval_ms: u64,
    pub max_sample_interval_ms: u64,
    pub temporal_resolution_ms: u64,
}

impl Device {
    pub open spec fn inner(self) -> large_bedroom::Device {
        match self {
            Device::LargeBedroom(d) => d,
        }
    }

    pub open spec fn readings(self) -> Seq<Reading> {
        self.inner().readings().map_values(|r: large_bedroom::Reading| Reading::LargeBedroom(r))
    }

    /// Names of the nodes from the root down to the device itself.
    pub open spec fn names(self) -> Seq<Seq<char>> {
        seq!["LargeBedroom"@, self.inner().node_name(), self.inner().name()]
    }

    /// `(min_sample_interval, max_sample_interval, temporal_resolution)` in ms.
    pub open spec fn timing(self) -> (u64, u64, u64) {
        match self.inner() {
            large_bedroom::Device::Bed(d) => match d {
                large_bedroom::bed::Device::Sht31 => (5000, 5000, 1000),
                large_bedroom::bed::Device::Bme680 => (5000, 5000, 1000),
                large_bedroom::bed::Device::Max44 => (1000, 5000, 100),
                large_bedroom::bed::Device::Mhz14 => (5000, 5000, 1000),
                large_bedroom::bed::Device::Sps30 => (1000, 5000, 1000),
                large_bedroom::bed::Device::Nau7802Left => (100, 1000, 100),
                large_bedroom::bed::Device::Nau7802Right => (100, 1000, 100),
            },
            large_bedroom::Device::Desk(_) => (5000, 5000, 1000),
        }
    }

    pub fn as_str(&self) -> (r: &'static str)
        ensures
            r@ == self.inner().name(),
    {
        let Device::LargeBedroom(d) = self;
        d.as_str()
    }

    pub fn broken_readings(&self) -> (r: Vec<Reading>)
        ensures
            r@ == self.readings(),
    {
        let Device::LargeBedroom(d) = self;
        let list = d.broken_readings();
        let mut r: Vec<Reading> = Vec::new();
        for i in 0..list.len()
            invariant
                list@ == d.readings(),
                r@.len() == i,
                forall|j: int| 0 <= j < i ==> r@[j] == Reading::LargeBedroom(#[trigger] list@[j]),
        {
            r.push(Reading::LargeBedroom(list[i]));
        }
        assert(r@ =~= self.readings());
        r
    }

    pub fn info(&self) -> (r: DeviceInfo)
        ensures
            r.name@ == self.inner().name(),
            r.affects_readings@ == self.readings(),
            r.min_sample_interval_ms == self.timing().0,
            r.max_sample_interval_ms == self.timing().1,
            r.temporal_resolution_ms == self.timing().2,
    {
        let Device::LargeBedroom(inner) = self;
        let (min, max, res): (u64, u64, u64) = match inner {
            large_bedroom::Device::Bed(d) => match d {
                large_bedroom::bed::Device::Sht31 => (5000, 5000, 1000),
                large_bedroom::bed::Device::Bme680 => (5000, 5000, 1000),
                large_bedroom::bed::Device::Max44 => (1000, 5000, 100),
                large_bedroom::bed::Device::Mhz14 => (5000, 5000, 1000),
                large_bedroom::bed::Device::Sps30 => (1000, 5000, 1000),
                large_bedroom::bed::Device::Nau7802Left => (100, 1000, 100),
                large_bedroom::bed::Device::Nau7802Right => (100, 1000, 100),
            },
            large_bedroom::Device::Desk(_) => (5000, 5000, 1000),
        };
        DeviceInfo {
            name: self.as_str(),
            affects_readings: self.broken_readings(),
            min_sample_interval_ms: min,
            max_sample_interval_ms: max,
            temporal_resolution_ms: res,
        }
    }
}

/// Every reading is listed by its own device.
pub proof fn lemma_reading_in_device(r: Reading)
    ensures
        exists|i: int|
            0 <= i < r.dev().readings().len() && (#[trigger] r.dev().readings()[i]).path()
                == r.path(),
{
    match r.inner() {
        large_bedroom::Reading::Bed(b) => {
            large_bedroom::bed::lemma_leaf_in_device(b);
            let i = choose|i: int|
                0 <= i < b.dev().readings().len() && #[trigger] b.dev().readings()[i].id()
                    == b.id();
            assert(r.dev().readings()[i].path() =~= r.path());
        },
        large_bedroom::Reading::Desk(d) => {
            large_bedroom::desk::lemma_leaf_in_device(d);
            let i = choose|i: int|
                0 <= i < d.dev().readings().len() && #[trigger] d.dev().readings()[i].id()
                    == d.id();
            assert(r.dev().readings()[i].path() =~= r.path());
        },
    }
}

/// An error anywhere in the house.
#[derive(Clone, Debug)]
pub enum Error {
    LargeBedroom(large_bedroom::Error),
}

impl Error {
    pub open spec fn inner(&self) -> large_bedroom::Error {
        match self {
            Error::LargeBedroom(e) => *e,
        }
    }

    pub open spec fn dev(&self) -> Device {
        Device::LargeBedroom(self.inner().dev())
    }

    pub open spec fn wf(&self) -> bool {
        self.inner().msg().len() <= large_bedroom::bed::MAX_MESSAGE_LEN
    }

    pub fn device(&self) -> (r: Device)
        ensures
            r == self.dev(),
    {
        let Error::LargeBedroom(e) = self;
        Device::LargeBedroom(e.device())
    }

    /// Same device, same cause and same message.
    pub open spec fn same(&self, other: &Error) -> bool {
        self.dev() == other.dev() && self.inner().cause() == other.inner().cause()
            && self.inner().msg() == other.inner().msg()
    }

    pub fn is_same_as(&self, other: &Error) -> (r: bool)
        ensures
            r == self.same(other),
    {
        let Error::LargeBedroom(a) = self;
        let Error::LargeBedroom(b) = other;
        if a.cause_id() != b.cause_id() || a.device() != b.device() {
            return false;
        }
        match (a.message(), b.message()) {
            (Some(x), Some(y)) => {
                if x.len() != y.len() {
                    return false;
                }
                for i in 0..x.len()
                    invariant
                        x@.len() == y@.len(),
                        x@ == self.inner().msg(),
                        y@ == other.inner().msg(),
                        forall|j: int| 0 <= j < i ==> x@[j] == y@[j],
                {
                    if x[i] != y[i] {
                        assert(x@[i as int] != y@[i as int]);
                        return false;
                    }
                }
                assert(x@ =~= y@);
                true
            },
            (None, None) => true,
            _ => false,
        }
    }

    /// Whether the message fits the wire format.
    pub fn within_bounds(&self) -> (r: bool)
        ensures
            r == self.wf(),
    {
        let Error::LargeBedroom(e) = self;
        match e.message() {
            Some(m) => m.len() <= large_bedroom::bed::MAX_MESSAGE_LEN,
            None => true,
        }
    }

    /// The readings this error leaves unknown: those of its device.
    pub fn broken_readings(&self) -> (r: Vec<Reading>)
        ensures
            r@ == self.dev().readings(),
    {
        self.device().broken_readings()
    }
}

/// Lower case of an ASCII letter; every other char is kept.
pub open spec fn lower_char(c: char) -> char {
    if 'A' <= c && c <= 'Z' {
        ((c as u8) + 32u8) as char
    } else {
        c
    }
}

pub open spec fn lower(s: Seq<char>) -> Seq<char> {
    s.map_values(|c: char| lower_char(c))
}

/// Appends the ASCII lower case of `s` to `out`.
pub fn push_lower(out: &mut Vec<char>, s: &str)
    ensures
        final(out)@ == old(out)@ + lower(s@),
{
    let n = s.unicode_len();
    let ghost start = out@;
    for i in 0..n
        invariant
            n == s@.len(),
            start == old(out)@,
            out@ == start + lower(s@.subrange(0, i as int)),
    {
        let c = s.get_char(i);
        let l = if 'A' <= c && c <= 'Z' {
            ((c as u8) + 32) as char
        } else {
            c
        };
        out.push(l);
        assert(lower(s@.subrange(0, i + 1)) =~= lower(s@.subrange(0, i as int)).push(l));
    }
    assert(s@.subrange(0, n as int) =~= s@);
}

/// Relies on `String::from_iter` over chars: the string holds exactly the
/// given chars, in order.
#[verifier::external_body]
pub(crate) fn string_of_chars(chars: &Vec<char>) -> (r: String)
    ensures
        r@ == chars@,
{
    chars.iter().collect()
}

} // verus!
