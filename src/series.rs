//! Per-device series: where a device's readings live on disk, how they are
//! packed into one line and when a line is complete.
use vstd::arithmetic::power2::pow2;
use vstd::prelude::*;

use crate::bitspec::{
    bits_needed, bits_value, top_steps, lemma_fields_ordered, lemma_total_bits_bound, speclist_to_fields,
    total_bits, Field, LengthWithOps, RangeWithRes,
};
use crate::large_bedroom;
use crate::large_bedroom::bed;
use crate::reading::{
    lemma_key_identifies_leaf, lemma_reading_in_device, lower, push_lower, string_of_chars,
    Device, DeviceInfo, Reading,
};

verus! {

/// Relative directory of a device's series: the lower cased names from the
/// root down to the device, separated by `/`.
pub open spec fn device_path(d: Device) -> Seq<char> {
    lower(d.names()[0]) + "/"@ + lower(d.names()[1]) + "/"@ + lower(d.names()[2])
}

/// Relative path, without extension, of the series that stores `reading`.
pub fn base_path(reading: &Reading) -> (r: String)
    ensures
        r@ == device_path(reading.dev()),
{
    let device = reading.device();
    let Device::LargeBedroom(inner) = device;
    let mut parts: Vec<char> = Vec::new();
    push_lower(&mut parts, "LargeBedroom");
    parts.push('/');
    push_lower(&mut parts, inner.node_str());
    parts.push('/');
    push_lower(&mut parts, inner.as_str());
    proof {
        reveal_strlit("/");
        assert(parts@ =~= device_path(device));
    }
    string_of_chars(&parts)
}

/// The series path of each device, spelled out.
pub open spec fn path_literal(d: Device) -> Seq<char> {
    match d.inner() {
        large_bedroom::Device::Bed(b) => match b {
            bed::Device::Sht31 => "largebedroom/bed/sht31"@,
            bed::Device::Bme680 => "largebedroom/bed/bme680"@,
            bed::Device::Max44 => "largebedroom/bed/max44"@,
            bed::Device::Mhz14 => "largebedroom/bed/mhz14"@,
            bed::Device::Sps30 => "largebedroom/bed/sps30"@,
            bed::Device::Nau7802Left => "largebedroom/bed/nau7802left"@,
            bed::Device::Nau7802Right => "largebedroom/bed/nau7802right"@,
        },
        large_bedroom::Device::Desk(_) => "largebedroom/desk/bme280"@,
    }
}

/// The series path of every device, spelled out.
pub proof fn lemma_path_literal(d: Device)
    ensures
        device_path(d) == path_literal(d),
{
    reveal_strlit("/");
    reveal_strlit("LargeBedroom");
    match d.inner() {
        large_bedroom::Device::Bed(b) => {
            reveal_strlit("Bed");
            match b {
                bed::Device::Sht31 => {
                    reveal_strlit("Sht31");
                    reveal_strlit("largebedroom/bed/sht31");
                },
                bed::Device::Bme680 => {
                    reveal_strlit("Bme680");
                    reveal_strlit("largebedroom/bed/bme680");
                },
                bed::Device::Max44 => {
                    reveal_strlit("Max44");
                    reveal_strlit("largebedroom/bed/max44");
                },
                bed::Device::Mhz14 => {
                    reveal_strlit("Mhz14");
                    reveal_strlit("largebedroom/bed/mhz14");
                },
                bed::Device::Sps30 => {
                    reveal_strlit("Sps30");
                    reveal_strlit("largebedroom/bed/sps30");
                },
                bed::Device::Nau7802Left => {
                    reveal_strlit("Nau7802Left");
                    reveal_strlit("largebedroom/bed/nau7802left");
                },
                bed::Device::Nau7802Right => {
                    reveal_strlit("Nau7802Right");
                    reveal_strlit("largebedroom/bed/nau7802right");
                },
            }
        },
        large_bedroom::Device::Desk(_) => {
            reveal_strlit("Desk");
            reveal_strlit("Bme280");
            reveal_strlit("largebedroom/desk/bme280");
        },
    }
    assert(device_path(d) =~= path_literal(d));
}

/// All readings of one device share a series path, and two different devices
/// never do.
pub proof fn lemma_series_path(a: Reading, b: Reading)
    ensures
        (device_path(a.dev()) == device_path(b.dev())) == (a.dev() == b.dev()),
{
    lemma_path_literal(a.dev());
    lemma_path_literal(b.dev());
    if a.dev() != b.dev() {
        reveal_strlit("largebedroom/bed/sht31");
        reveal_strlit("largebedroom/bed/bme680");
        reveal_strlit("largebedroom/bed/max44");
        reveal_strlit("largebedroom/bed/mhz14");
        reveal_strlit("largebedroom/bed/sps30");
        reveal_strlit("largebedroom/bed/nau7802left");
        reveal_strlit("largebedroom/bed/nau7802right");
        reveal_strlit("largebedroom/desk/bme280");
        let pa = path_literal(a.dev());
        let pb = path_literal(b.dev());
        assert(pa.len() != pb.len() || pa[17] != pb[17] || pa[18] != pb[18]);
    }
}

/// A line is written once every slot was set less than this long ago.
pub const FRESH_WINDOW_MS: u64 = 500;

/// Dividing a time in milliseconds by this factor keeps the device's
/// temporal resolution and minimal sample interval in the smallest number.
pub fn millis_to_minimal_representation(device_info: DeviceInfo) -> (r: u64)
    ensures
        r == if device_info.temporal_resolution_ms < device_info.min_sample_interval_ms {
            device_info.temporal_resolution_ms
        } else {
            device_info.min_sample_interval_ms
        },
{
    if device_info.temporal_resolution_ms < device_info.min_sample_interval_ms {
        device_info.temporal_resolution_ms
    } else {
        device_info.min_sample_interval_ms
    }
}

/// Range and resolution of a reading as a bit spec input.
pub open spec fn range_of(r: Reading) -> RangeWithRes {
    RangeWithRes {
        lo: r.spec_limits().0 as i64,
        hi: r.spec_limits().1 as i64,
        resolution: r.spec_limits().2 as u32,
    }
}

/// The bit spec of every reading, in order.
pub fn to_speclist(readings: &Vec<Reading>) -> (r: Vec<LengthWithOps>)
    ensures
        r@.len() == readings@.len(),
        forall|i: int|
            0 <= i < r@.len() ==> {
                &&& (#[trigger] r@[i]).length as nat == bits_needed(range_of(readings@[i]).steps())
                &&& r@[i].length <= 64
                &&& r@[i].lo == range_of(readings@[i]).lo
                &&& r@[i].hi == range_of(readings@[i]).hi
                &&& r@[i].lo <= r@[i].hi && r@[i].resolution > 0
                &&& top_steps(r@[i].lo, r@[i].hi, r@[i].resolution) < pow2(r@[i].length as nat)
                &&& r@[i].resolution == range_of(readings@[i]).resolution
            },
{
    let mut r: Vec<LengthWithOps> = Vec::new();
    for i in 0..readings.len()
        invariant
            r@.len() == i,
            forall|j: int|
                0 <= j < i ==> {
                    &&& (#[trigger] r@[j]).length as nat == bits_needed(
                        range_of(readings@[j]).steps(),
                    )
                    &&& r@[j].length <= 64
                    &&& r@[j].lo == range_of(readings@[j]).lo
                &&& r@[j].hi == range_of(readings@[j]).hi
                &&& r@[j].lo <= r@[j].hi && r@[j].resolution > 0
                &&& top_steps(r@[j].lo, r@[j].hi, r@[j].resolution) < pow2(r@[j].length as nat)
                    &&& r@[j].resolution == range_of(readings@[j]).resolution
                },
    {
        let (lo, hi, resolution) = readings[i].limits();
        let range = RangeWithRes { lo, hi, resolution };
        assert(range == range_of(readings@[i as int]));
        r.push(LengthWithOps::from_range(range));
    }
    r
}

/// The factor [`millis_to_minimal_representation`] gives for the device.
pub open spec fn scale_of(d: Device) -> u64 {
    if d.timing().2 < d.timing().0 {
        d.timing().2
    } else {
        d.timing().0
    }
}

/// One slot of a series' line.
#[derive(Clone, Copy, Debug)]
pub struct Meta {
    pub reading: Reading,
    pub field: Field,
    /// When the slot was last written, in milliseconds.
    pub set_at: Option<u64>,
}

/// What a series file records about its layout; it must match on open.
pub struct Header {
    pub readings: Vec<Reading>,
    pub encoding: Vec<Field>,
}

impl Header {
    pub open spec fn same(&self, other: &Header) -> bool {
        self.readings@ == other.readings@ && self.encoding@ == other.encoding@
    }

    /// Whether both headers hold the same readings and fields.
    pub fn matches(&self, other: &Header) -> (r: bool)
        ensures
            r == self.same(other),
    {
        if self.readings.len() != other.readings.len() || self.encoding.len()
            != other.encoding.len() {
            return false;
        }
        for i in 0..self.readings.len()
            invariant
                self.readings@.len() == other.readings@.len(),
                forall|j: int| 0 <= j < i ==> self.readings@[j] == other.readings@[j],
        {
            if self.readings[i] != other.readings[i] {
                return false;
            }
        }
        assert(self.readings@ =~= other.readings@);
        for i in 0..self.encoding.len()
            invariant
                self.encoding@.len() == other.encoding@.len(),
                self.readings@ == other.readings@,
                forall|j: int| 0 <= j < i ==> self.encoding@[j] == other.encoding@[j],
        {
            if self.encoding[i] != other.encoding[i] {
                return false;
            }
        }
        assert(self.encoding@ =~= other.encoding@);
        true
    }
}

/// What came of trying to open the series file of a device.
pub enum OpenOutcome {
    /// The file exists; this is the header it holds.
    Opened(Header),
    /// There is no file yet.
    NotFound,
    /// The file could not be opened for another reason.
    Failed,
}

/// What to do with the outcome of opening a series file.
#[derive(Clone, Copy, Debug, PartialEq, Eq, Structural)]
pub enum OpenAction {
    UseExisting,
    CreateNew,
}

/// Why a series could not be opened.
#[derive(Clone, Copy, Debug, PartialEq, Eq, Structural)]
pub enum SeriesError {
    /// The header in the file does not match the readings of the device.
    HeaderMismatch,
    /// The file exists but could not be opened.
    OpenFailed,
}

impl SeriesError {
    pub fn message(&self) -> (r: &'static str)
        ensures
            *self == SeriesError::HeaderMismatch ==> r@ == "header in file does not match readings"@,
    {
        match self {
            SeriesError::HeaderMismatch => "header in file does not match readings",
            SeriesError::OpenFailed => "Could not open existing byteseries",
        }
    }
}

/// Decides how to go on after opening a series file: an existing file is
/// used only when its header equals the expected one, a missing file is
/// created, any other failure is passed on.
pub fn try_create_new_if_open_failed(res: &OpenOutcome, expected_header: &Header) -> (r: Result<
    OpenAction,
    SeriesError,
>)
    ensures
        match res {
            OpenOutcome::Opened(h) => if h.same(expected_header) {
                r == Ok::<OpenAction, SeriesError>(OpenAction::UseExisting)
            } else {
                r == Err::<OpenAction, SeriesError>(SeriesError::HeaderMismatch)
            },
            OpenOutcome::NotFound => r == Ok::<OpenAction, SeriesError>(OpenAction::CreateNew),
            OpenOutcome::Failed => r == Err::<OpenAction, SeriesError>(SeriesError::OpenFailed),
        },
{
    match res {
        OpenOutcome::Opened(h) => if h.matches(expected_header) {
            Ok(OpenAction::UseExisting)
        } else {
            Err(SeriesError::HeaderMismatch)
        },
        OpenOutcome::NotFound => Ok(OpenAction::CreateNew),
        OpenOutcome::Failed => Err(SeriesError::OpenFailed),
    }
}

/// Whether every slot was set less than [`FRESH_WINDOW_MS`] before `now`.
/// A slot that was never set is not fresh.
pub open spec fn all_fresh(meta: Seq<Meta>, now: u64) -> bool {
    forall|i: int|
        0 <= i < meta.len() ==> match (#[trigger] meta[i]).set_at {
            Some(t) => now < t + FRESH_WINDOW_MS,
            None => false,
        }
}

/// One line ready for the series file.
pub struct Line {
    /// The time, divided by the series' scale factor.
    pub time: u64,
    pub payload: Vec<u8>,
}

/// The in-memory side of one device's series: the line being filled and
/// the layout of its slots.
pub struct Series {
    pub device: Device,
    pub line: Vec<u8>,
    pub meta: Vec<Meta>,
    pub scale: u64,
}

impl Series {
    pub open spec fn wf(&self) -> bool {
        &&& self.scale == scale_of(self.device)
        &&& self.scale > 0
        &&& self.meta@.len() == self.device.readings().len()
        &&& forall|i: int|
            0 <= i < self.meta@.len() ==> (#[trigger] self.meta@[i]).reading
                == self.device.readings()[i]
        &&& forall|i: int|
            0 <= i < self.meta@.len() ==> (#[trigger] self.meta@[i]).field.wf()
                && self.meta@[i].field.fits(self.line@.len())
        &&& forall|i: int, j: int|
            0 <= i < j < self.meta@.len() ==> (#[trigger] self.meta@[i]).field.offset
                + self.meta@[i].field.length <= (#[trigger] self.meta@[j]).field.offset
    }

    /// The layout of the series that stores `reading`: one slot per reading
    /// of its device, fields end to end, a zeroed line of whole bytes.
    pub fn new(reading: &Reading) -> (r: Series)
        ensures
            r.wf(),
            r.device == reading.dev(),
            r.line@ == Seq::new(r.line@.len(), |i: int| 0u8),
            forall|i: int| 0 <= i < r.meta@.len() ==> (#[trigger] r.meta@[i]).set_at.is_none(),
            r.meta@.len() > 0,
            forall|i: int|
                0 <= i < r.meta@.len() ==> {
                    &&& (#[trigger] r.meta@[i]).field.length as nat == bits_needed(
                        range_of(r.meta@[i].reading).steps(),
                    )
                    &&& r.meta@[i].field.lo == range_of(r.meta@[i].reading).lo
                    &&& r.meta@[i].field.hi == range_of(r.meta@[i].reading).hi
                    &&& r.meta@[i].field.resolution == range_of(r.meta@[i].reading).resolution
                },
            r.meta@[0].field.offset == 0,
            forall|i: int|
                0 < i < r.meta@.len() ==> (#[trigger] r.meta@[i]).field.offset == r.meta@[i
                    - 1].field.offset + r.meta@[i - 1].field.length,
            r.line@.len() == (r.meta@.last().field.offset + r.meta@.last().field.length + 7) / 8,
    {
        let device = reading.device();
        let info = device.info();
        let readings = device.broken_readings();
        let specs = to_speclist(&readings);
        proof {
            lemma_total_bits_bound(specs@);
            assert(readings@.len() <= 10);
        }
        let fields = speclist_to_fields(&specs);
        let mut total: u32 = 0;
        let mut meta: Vec<Meta> = Vec::new();
        for i in 0..readings.len()
            invariant
                readings@ == device.readings(),
                readings@.len() <= 10,
                fields@.len() == readings@.len(),
                specs@.len() == readings@.len(),
                total_bits(specs@) <= 64 * specs@.len(),
                forall|k: int|
                    0 <= k < fields@.len() ==> {
                        &&& (#[trigger] fields@[k]).offset == total_bits(specs@.subrange(0, k))
                        &&& fields@[k].length == specs@[k].length
                        &&& fields@[k].lo == specs@[k].lo
                        &&& fields@[k].hi == specs@[k].hi
                        &&& fields@[k].resolution == specs@[k].resolution
                    },
                forall|k: int|
                    0 <= k < specs@.len() ==> (#[trigger] specs@[k]).length <= 64
                        && specs@[k].resolution > 0 && specs@[k].lo <= specs@[k].hi && top_steps(
                        specs@[k].lo,
                        specs@[k].hi,
                        specs@[k].resolution,
                    ) < pow2(specs@[k].length as nat),
                meta@.len() == i,
                total as int == total_bits(specs@.subrange(0, i as int)),
                forall|k: int|
                    0 <= k < i ==> {
                        &&& (#[trigger] meta@[k]).reading == readings@[k]
                        &&& meta@[k].field == fields@[k]
                        &&& meta@[k].set_at.is_none()
                    },
        {
            proof {
                lemma_fields_ordered(specs@, i as int, i + 1);
                assert(specs@.subrange(0, i + 1).drop_last() =~= specs@.subrange(0, i as int));
                crate::bitspec::lemma_total_bits_bound(specs@.subrange(0, i + 1));
            }
            total = total + fields[i].length as u32;
            meta.push(Meta { reading: readings[i], field: fields[i], set_at: None });
        }
        assert(specs@.subrange(0, specs@.len() as int) =~= specs@);
        let payload_size = ((total + 7) / 8) as usize;
        let line: Vec<u8> = vec![0u8; payload_size];
        let scale = millis_to_minimal_representation(info);
        let r = Series { device, line, meta, scale };
        proof {
            assert(readings@.len() > 0);
            assert(specs@.subrange(0, 0) =~= Seq::<LengthWithOps>::empty());
            assert forall|i: int| 0 < i < r.meta@.len() implies (#[trigger] r.meta@[i]).field.offset
                == r.meta@[i - 1].field.offset + r.meta@[i - 1].field.length by {
                assert(specs@.subrange(0, i).drop_last() =~= specs@.subrange(0, i - 1));
            }
            let last = (specs@.len() - 1) as int;
            assert(specs@.drop_last() =~= specs@.subrange(0, last));
            assert(specs@.subrange(0, specs@.len() as int) =~= specs@);
            assert forall|k: int| 0 <= k < r.meta@.len() implies (#[trigger] r.meta@[k]).field.wf()
                && r.meta@[k].field.fits(r.line@.len()) by {
                lemma_fields_ordered(specs@, k, specs@.len() as int);
            }
            assert forall|a: int, b: int|
                0 <= a < b < r.meta@.len() implies (#[trigger] r.meta@[a]).field.offset
                + r.meta@[a].field.length <= (#[trigger] r.meta@[b]).field.offset by {
                lemma_fields_ordered(specs@, a, b);
            }
            assert(r.line@ =~= Seq::new(r.line@.len(), |i: int| 0u8));
        }
        r
    }

    /// The header the series file must hold.
    pub fn expected_header(&self) -> (r: Header)
        ensures
            r.readings@ == self.meta@.map_values(|m: Meta| m.reading),
            r.encoding@ == self.meta@.map_values(|m: Meta| m.field),
    {
        let mut readings: Vec<Reading> = Vec::new();
        let mut encoding: Vec<Field> = Vec::new();
        for i in 0..self.meta.len()
            invariant
                readings@.len() == i,
                encoding@.len() == i,
                forall|j: int| 0 <= j < i ==> #[trigger] readings@[j] == self.meta@[j].reading,
                forall|j: int| 0 <= j < i ==> #[trigger] encoding@[j] == self.meta@[j].field,
        {
            readings.push(self.meta[i].reading);
            encoding.push(self.meta[i].field);
        }
        let r = Header { readings, encoding };
        assert(r.readings@ =~= self.meta@.map_values(|m: Meta| m.reading));
        assert(r.encoding@ =~= self.meta@.map_values(|m: Meta| m.field));
        r
    }

    /// Number of bytes in a line.
    pub fn payload_size(&self) -> (r: usize)
        ensures
            r == self.line@.len(),
    {
        self.line.len()
    }

    /// Position of the slot of `reading`.
    fn slot_of(&self, reading: &Reading) -> (r: usize)
        requires
            self.wf(),
            reading.dev() == self.device,
        ensures
            r < self.meta@.len(),
            self.meta@[r as int].reading.leaf_of() == reading.leaf_of(),
    {
        proof {
            lemma_reading_in_device(*reading);
        }
        let mut i: usize = 0;
        while i < self.meta.len()
            invariant
                self.wf(),
                reading.dev() == self.device,
                i <= self.meta@.len(),
                forall|j: int| 0 <= j < i ==> (#[trigger] self.meta@[j]).reading.leaf_of()
                    != reading.leaf_of(),
            decreases self.meta@.len() - i,
        {
            if self.meta[i].reading.is_same_as(reading) {
                return i;
            }
            i = i + 1;
        }
        proof {
            let k = choose|k: int|
                0 <= k < reading.dev().readings().len() && (#[trigger] reading.dev().readings()[k]).path()
                    == reading.path();
            lemma_key_identifies_leaf(self.meta@[k].reading, *reading);
            assert(false);
        }
        0
    }

    /// Stores the value of `reading`, `value` in thousandths of its unit, in
    /// its slot at time `now` (milliseconds). When every slot is then fresh
    /// the line is handed out and the scratch line zeroed.
    pub fn append(&mut self, reading: &Reading, value: i64, now: u64) -> (r: Option<Line>)
        requires
            old(self).wf(),
            reading.dev() == old(self).device,
        ensures
            final(self).wf(),
            final(self).device == old(self).device,
            final(self).scale == old(self).scale,
            final(self).line@.len() == old(self).line@.len(),
            exists|i: int|
                0 <= i < old(self).meta@.len() && (#[trigger] old(self).meta@[i]).reading.leaf_of()
                    == reading.leaf_of() && final(self).meta@ == after_write(old(self).meta@, i, now) && ({
                    let f = old(self).meta@[i].field;
                    let written = match r {
                        Some(l) => l.payload@,
                        None => final(self).line@,
                    };
                    &&& written.len() == old(self).line@.len()
                    &&& bits_value(written, f.offset as int, f.length as nat) == f.quantize(
                        value as int,
                    )
                    &&& forall|j: int|
                        0 <= j < old(self).meta@.len() && j != i ==> bits_value(
                            written,
                            (#[trigger] old(self).meta@[j]).field.offset as int,
                            old(self).meta@[j].field.length as nat,
                        ) == bits_value(
                            old(self).line@,
                            old(self).meta@[j].field.offset as int,
                            old(self).meta@[j].field.length as nat,
                        )
                }),
            r.is_some() == all_fresh(final(self).meta@, now),
            r.is_some() ==> r.unwrap().time == now / old(self).scale && final(self).line@ == Seq::new(
                old(self).line@.len(),
                |k: int| 0u8,
            ),
    {
        let i = self.slot_of(reading);
        let field = self.meta[i].field;
        let ghost old_line = self.line@;
        field.encode(value, &mut self.line);
        let mut m = self.meta[i];
        m.set_at = Some(now);
        self.meta.set(i, m);
        proof {
            assert forall|j: int|
                0 <= j < old(self).meta@.len() && j != i implies bits_value(
                self.line@,
                (#[trigger] old(self).meta@[j]).field.offset as int,
                old(self).meta@[j].field.length as nat,
            ) == bits_value(
                old_line,
                old(self).meta@[j].field.offset as int,
                old(self).meta@[j].field.length as nat,
            ) by {
                let g = old(self).meta@[j].field;
                if j < i {
                    assert(g.offset + g.length <= field.offset);
                } else {
                    assert(field.offset + field.length <= g.offset);
                }
                crate::bitspec::lemma_field_round_trip(field, g, old_line, self.line@, value as int);
            }
        }
        let mut fresh = true;
        let mut k: usize = 0;
        while k < self.meta.len()
            invariant
                k <= self.meta@.len(),
                fresh == forall|j: int|
                    0 <= j < k ==> match (#[trigger] self.meta@[j]).set_at {
                        Some(t) => now < t + FRESH_WINDOW_MS,
                        None => false,
                    },
            decreases self.meta@.len() - k,
        {
            let ok = match self.meta[k].set_at {
                Some(t) => (now as u128) < t as u128 + FRESH_WINDOW_MS as u128,
                None => false,
            };
            fresh = fresh && ok;
            k = k + 1;
        }
        if fresh {
            let n = self.line.len();
            let payload = self.line.clone();
            self.line = vec![0u8; n];
            proof {
                assert(self.line@ =~= Seq::new(old(self).line@.len(), |k: int| 0u8));
            }
            Some(Line { time: now / self.scale, payload })
        } else {
            None
        }
    }
}

/// `field` is the field of the slot that holds `reading`.
pub open spec fn slot_field(meta: Seq<Meta>, reading: Reading, field: Field) -> bool {
    exists|k: int|
        0 <= k < meta.len() && (#[trigger] meta[k]).reading.leaf_of() == reading.leaf_of()
            && field == meta[k].field
}

impl Series {
    /// The fields of the requested readings, in request order.
    pub fn fields_for(&self, readings: &Vec<Reading>) -> (r: Vec<Field>)
        requires
            self.wf(),
            forall|i: int| 0 <= i < readings@.len() ==> (#[trigger] readings@[i]).dev() == self.device,
        ensures
            r@.len() == readings@.len(),
            forall|i: int| 0 <= i < r@.len() ==> slot_field(self.meta@, readings@[i], #[trigger] r@[i]),
    {
        let mut r: Vec<Field> = Vec::new();
        for i in 0..readings.len()
            invariant
                self.wf(),
                forall|i: int|
                    0 <= i < readings@.len() ==> (#[trigger] readings@[i]).dev() == self.device,
                r@.len() == i,
                forall|j: int| 0 <= j < i ==> slot_field(self.meta@, readings@[j], #[trigger] r@[j]),
        {
            let k = self.slot_of(&readings[i]);
            r.push(self.meta[k].field);
        }
        r
    }

    /// Scales a time in milliseconds the way lines of this series store it.
    pub fn scale_time(&self, millis: u64) -> (r: u64)
        requires
            self.wf(),
        ensures
            r == millis / self.scale,
    {
        millis / self.scale
    }

    /// Turns a stored time back into milliseconds; `None` if that overflows.
    pub fn unscale_time(&self, stored: u64) -> (r: Option<u64>)
        ensures
            r.is_some() == (stored * self.scale <= u64::MAX),
            r.is_some() ==> r.unwrap() == stored * self.scale,
    {
        stored.checked_mul(self.scale)
    }
}

/// A slot that was never set, or was set [`FRESH_WINDOW_MS`] or longer ago,
/// keeps the line from being written.
pub proof fn lemma_stale_slot_blocks_line(meta: Seq<Meta>, now: u64, i: int)
    requires
        0 <= i < meta.len(),
        match meta[i].set_at {
            Some(t) => now >= t + FRESH_WINDOW_MS,
            None => true,
        },
    ensures
        !all_fresh(meta, now),
{
}

/// Slots all set within the window make the line due.
pub proof fn lemma_fresh_slots_complete_line(meta: Seq<Meta>, now: u64)
    requires
        forall|i: int|
            0 <= i < meta.len() ==> (#[trigger] meta[i]).set_at.is_some() && now
                < meta[i].set_at.unwrap() + FRESH_WINDOW_MS,
    ensures
        all_fresh(meta, now),
{
    assert forall|i: int| 0 <= i < meta.len() implies match (#[trigger] meta[i]).set_at {
        Some(t) => now < t + FRESH_WINDOW_MS,
        None => false,
    } by {
        assert(meta[i].set_at.is_some());
    }
}

/// The values of every field of a line, in thousandths of their units.
pub fn decode_line(fields: &Vec<Field>, line: &Vec<u8>) -> (r: Vec<i128>)
    requires
        forall|i: int|
            0 <= i < fields@.len() ==> (#[trigger] fields@[i]).wf() && fields@[i].fits(
                line@.len(),
            ),
    ensures
        r@.len() == fields@.len(),
        forall|i: int|
            0 <= i < r@.len() ==> r@[i] == (#[trigger] fields@[i]).dequantize(
                bits_value(line@, fields@[i].offset as int, fields@[i].length as nat),
            ),
{
    let mut r: Vec<i128> = Vec::new();
    for i in 0..fields.len()
        invariant
            forall|i: int|
                0 <= i < fields@.len() ==> (#[trigger] fields@[i]).wf() && fields@[i].fits(
                    line@.len(),
                ),
            r@.len() == i,
            forall|j: int|
                0 <= j < i ==> r@[j] == (#[trigger] fields@[j]).dequantize(
                    bits_value(line@, fields@[j].offset as int, fields@[j].length as nat),
                ),
    {
        r.push(fields[i].decode(line));
    }
    r
}

/// Turns rows of one value per reading into one column per reading.
pub fn deinterleave(rows: &Vec<Vec<i128>>, width: usize) -> (r: Vec<Vec<i128>>)
    requires
        forall|t: int| 0 <= t < rows@.len() ==> (#[trigger] rows@[t])@.len() == width,
    ensures
        r@.len() == width,
        forall|j: int| 0 <= j < width ==> (#[trigger] r@[j])@.len() == rows@.len(),
        forall|j: int, t: int|
            0 <= j < width && 0 <= t < rows@.len() ==> #[trigger] r@[j]@[t] == rows@[t]@[j],
{
    let mut r: Vec<Vec<i128>> = Vec::new();
    for j in 0..width
        invariant
            forall|t: int| 0 <= t < rows@.len() ==> (#[trigger] rows@[t])@.len() == width,
            r@.len() == j,
            forall|a: int| 0 <= a < j ==> (#[trigger] r@[a])@.len() == rows@.len(),
            forall|a: int, t: int|
                0 <= a < j && 0 <= t < rows@.len() ==> #[trigger] r@[a]@[t] == rows@[t]@[a],
    {
        let mut column: Vec<i128> = Vec::new();
        for t in 0..rows.len()
            invariant
                forall|t: int| 0 <= t < rows@.len() ==> (#[trigger] rows@[t])@.len() == width,
                j < width,
                column@.len() == t,
                forall|s: int| 0 <= s < t ==> column@[s] == (#[trigger] rows@[s])@[j as int],
        {
            column.push(rows[t][j]);
        }
        r.push(column);
    }
    r
}

/// `column` holds, line by line, the value of the slot of `reading`.
pub open spec fn column_of(meta: Seq<Meta>, reading: Reading, lines: Seq<Vec<u8>>, column: Seq<i128>) -> bool {
    exists|f: Field|
        #[trigger] slot_field(meta, reading, f) && column.len() == lines.len() && forall|t: int|
            0 <= t < lines.len() ==> #[trigger] column[t] == f.dequantize(
                bits_value(lines[t]@, f.offset as int, f.length as nat),
            )
}

impl Series {
    /// Turns lines fetched from the series file into the values of the
    /// requested readings: one column per reading, in request order, and the
    /// times of the lines in milliseconds. `None` when a stored time does not
    /// fit in milliseconds.
    pub fn read(&self, readings: &Vec<Reading>, times: &Vec<u64>, lines: &Vec<Vec<u8>>) -> (r:
        Option<(Vec<u64>, Vec<Vec<i128>>)>)
        requires
            self.wf(),
            readings@.len() > 0,
            forall|i: int| 0 <= i < readings@.len() ==> (#[trigger] readings@[i]).dev() == self.device,
            forall|t: int| 0 <= t < lines@.len() ==> (#[trigger] lines@[t])@.len() == self.line@.len(),
        ensures
            r.is_some() == forall|t: int|
                0 <= t < times@.len() ==> #[trigger] times@[t] * self.scale <= u64::MAX,
            r.is_some() ==> {
                let (ms, columns) = r.unwrap();
                &&& ms@.len() == times@.len()
                &&& forall|t: int| 0 <= t < times@.len() ==> #[trigger] ms@[t] == times@[t] * self.scale
                &&& columns@.len() == readings@.len()
                &&& forall|j: int|
                    0 <= j < readings@.len() ==> (#[trigger] columns@[j])@.len() == lines@.len()
                &&& forall|j: int|
                    0 <= j < readings@.len() ==> column_of(
                        self.meta@,
                        readings@[j],
                        lines@,
                        #[trigger] columns@[j]@,
                    )
            },
    {
        let mut ms: Vec<u64> = Vec::new();
        for t in 0..times.len()
            invariant
                ms@.len() == t,
                forall|k: int| 0 <= k < t ==> #[trigger] times@[k] * self.scale <= u64::MAX,
                forall|k: int| 0 <= k < t ==> #[trigger] ms@[k] == times@[k] * self.scale,
        {
            match self.unscale_time(times[t]) {
                Some(m) => ms.push(m),
                None => return None,
            }
        }
        let fields = self.fields_for(readings);
        let mut rows: Vec<Vec<i128>> = Vec::new();
        for t in 0..lines.len()
            invariant
                self.wf(),
                fields@.len() == readings@.len(),
                forall|i: int| 0 <= i < fields@.len() ==> slot_field(self.meta@, readings@[i], #[trigger] fields@[i]),
                forall|t: int| 0 <= t < lines@.len() ==> (#[trigger] lines@[t])@.len() == self.line@.len(),
                rows@.len() == t,
                forall|k: int| 0 <= k < t ==> (#[trigger] rows@[k])@.len() == fields@.len(),
                forall|k: int, j: int|
                    0 <= k < t && 0 <= j < fields@.len() ==> #[trigger] rows@[k]@[j] == fields@[j].dequantize(
                        bits_value(lines@[k]@, fields@[j].offset as int, fields@[j].length as nat),
                    ),
        {
            proof {
                assert forall|i: int| 0 <= i < fields@.len() implies (#[trigger] fields@[i]).wf()
                    && fields@[i].fits(lines@[t as int]@.len()) by {
                    assert(slot_field(self.meta@, readings@[i], fields@[i]));
                }
            }
            rows.push(decode_line(&fields, &lines[t]));
        }
        let columns = deinterleave(&rows, fields.len());
        proof {
            assert forall|j: int| 0 <= j < readings@.len() implies column_of(
                self.meta@,
                readings@[j],
                lines@,
                #[trigger] columns@[j]@,
            ) by {
                let f = fields@[j];
                assert(slot_field(self.meta@, readings@[j], f));
                assert forall|t: int| 0 <= t < lines@.len() implies #[trigger] columns@[j]@[t] == f.dequantize(
                    bits_value(lines@[t]@, f.offset as int, f.length as nat),
                ) by {
                    assert(columns@[j]@[t] == rows@[t]@[j]);
                }
            }
        }
        Some((ms, columns))
    }
}

/// The slots after writing slot `i` at time `now`.
pub open spec fn after_write(meta: Seq<Meta>, i: int, now: u64) -> Seq<Meta> {
    meta.update(i, Meta { set_at: Some(now), ..meta[i] })
}

/// For each write in turn, whether [`Series::append`] hands out a line:
/// slot `slots[k]` is written at time `times[k]`.
pub open spec fn emissions(meta: Seq<Meta>, slots: Seq<int>, times: Seq<u64>) -> Seq<bool>
    decreases slots.len(),
{
    if slots.len() == 0 || times.len() == 0 {
        Seq::empty()
    } else {
        let next = after_write(meta, slots[0], times[0]);
        seq![all_fresh(next, times[0])] + emissions(next, slots.drop_first(), times.drop_first())
    }
}

/// Writing every slot of a series that holds no values yet exactly once,
/// in any order and all within [`FRESH_WINDOW_MS`], hands out exactly one
/// line: at the last write.
pub proof fn lemma_one_line_per_round(meta: Seq<Meta>, slots: Seq<int>, times: Seq<u64>)
    requires
        meta.len() > 0,
        slots.len() == meta.len(),
        times.len() == meta.len(),
        forall|i: int| 0 <= i < meta.len() ==> (#[trigger] meta[i]).set_at.is_none(),
        forall|j: int| 0 <= j < slots.len() ==> 0 <= #[trigger] slots[j] < meta.len(),
        forall|a: int, b: int| 0 <= a < b < slots.len() ==> slots[a] != slots[b],
        forall|m: int| 0 <= m < meta.len() ==> #[trigger] slots.contains(m),
        forall|i: int, j: int| 0 <= i <= j < times.len() ==> times[i] <= times[j],
        times.last() < times[0] + FRESH_WINDOW_MS,
    ensures
        emissions(meta, slots, times) == Seq::new(meta.len(), |i: int| i == meta.len() - 1),
{
    let n = meta.len() as int;
    lemma_round_from(meta, slots, times, 0, meta);
    assert(slots.subrange(0, n) =~= slots);
    assert(times.subrange(0, n) =~= times);
    assert(Seq::new(meta.len(), |i: int| i == meta.len() - 1).subrange(0, n) =~= Seq::new(
        meta.len(),
        |i: int| i == meta.len() - 1,
    ));
}

proof fn lemma_round_from(
    start: Seq<Meta>,
    slots: Seq<int>,
    times: Seq<u64>,
    k: int,
    cur: Seq<Meta>,
)
    requires
        start.len() > 0,
        slots.len() == start.len(),
        times.len() == start.len(),
        0 <= k <= start.len(),
        forall|j: int| 0 <= j < slots.len() ==> 0 <= #[trigger] slots[j] < start.len(),
        forall|a: int, b: int| 0 <= a < b < slots.len() ==> slots[a] != slots[b],
        forall|m: int| 0 <= m < start.len() ==> #[trigger] slots.contains(m),
        forall|i: int, j: int| 0 <= i <= j < times.len() ==> times[i] <= times[j],
        times.last() < times[0] + FRESH_WINDOW_MS,
        cur.len() == start.len(),
        forall|j: int| 0 <= j < k ==> cur[#[trigger] slots[j]].set_at == Some(times[j]),
        forall|m: int|
            0 <= m < cur.len() && (forall|j: int| 0 <= j < k ==> slots[j] != m) ==> (
            #[trigger] cur[m]).set_at.is_none(),
    ensures
        emissions(cur, slots.subrange(k, start.len() as int), times.subrange(k, start.len() as int))
            == Seq::new(start.len(), |i: int| i == start.len() - 1).subrange(k, start.len() as int),
    decreases start.len() - k,
{
    let n = start.len() as int;
    let sl = slots.subrange(k, n);
    let ts = times.subrange(k, n);
    let want = Seq::new(start.len(), |i: int| i == start.len() - 1).subrange(k, n);
    if k < n {
        let next = after_write(cur, slots[k], times[k]);
        assert(sl[0] == slots[k]);
        assert(ts[0] == times[k]);
        assert forall|j: int| 0 <= j < k + 1 implies next[#[trigger] slots[j]].set_at == Some(
            times[j],
        ) by {
            if j < k {
                assert(slots[j] != slots[k]);
            }
        }
        assert forall|m: int|
            0 <= m < next.len() && (forall|j: int| 0 <= j < k + 1 ==> slots[j] != m) implies (
            #[trigger] next[m]).set_at.is_none() by {
            assert(slots[k] != m);
            assert forall|j: int| 0 <= j < k implies slots[j] != m by {
                assert(slots[j] != m);
            }
        }
        lemma_round_from(start, slots, times, k + 1, next);
        assert(sl.drop_first() =~= slots.subrange(k + 1, n));
        assert(ts.drop_first() =~= times.subrange(k + 1, n));
        if k == n - 1 {
            assert forall|i: int| 0 <= i < next.len() implies match (#[trigger] next[i]).set_at {
                Some(t) => times[k] < t + FRESH_WINDOW_MS,
                None => false,
            } by {
                assert(slots.contains(i));
                let j = choose|j: int| 0 <= j < slots.len() && slots[j] == i;
                assert(next[slots[j]].set_at == Some(times[j]));
                assert(times[0] <= times[j]);
            }
            assert(all_fresh(next, times[k]));
        } else {
            let m = slots[n - 1];
            assert forall|j: int| 0 <= j < k + 1 implies slots[j] != m by {
                assert(slots[j] != slots[n - 1]);
            }
            assert(next[m].set_at.is_none());
            assert(!all_fresh(next, times[k]));
        }
        assert(emissions(cur, sl, ts) =~= want);
    } else {
        assert(emissions(cur, sl, ts) =~= want);
    }
}

/// While a slot is not written, and holds no value or one at least
/// [`FRESH_WINDOW_MS`] older than every write, no write hands out a line.
pub proof fn lemma_missing_slot_no_line(meta: Seq<Meta>, slots: Seq<int>, times: Seq<u64>, k: int)
    requires
        0 <= k < meta.len(),
        match meta[k].set_at {
            None => true,
            Some(t) => forall|i: int| 0 <= i < times.len() ==> #[trigger] times[i] >= t + FRESH_WINDOW_MS,
        },
        forall|i: int| 0 <= i < slots.len() ==> 0 <= #[trigger] slots[i] < meta.len() && slots[i]
            != k,
    ensures
        forall|i: int|
            0 <= i < emissions(meta, slots, times).len() ==> !#[trigger] emissions(
                meta,
                slots,
                times,
            )[i],
    decreases slots.len(),
{
    if slots.len() > 0 && times.len() > 0 {
        let next = after_write(meta, slots[0], times[0]);
        assert(next[k] == meta[k]);
        if let Some(t) = meta[k].set_at {
            assert(times[0] >= t + FRESH_WINDOW_MS);
            assert forall|i: int| 0 <= i < times.drop_first().len() implies #[trigger] times.drop_first()[i]
                >= t + FRESH_WINDOW_MS by {
                assert(times.drop_first()[i] == times[i + 1]);
            }
        }
        assert(!all_fresh(next, times[0]));
        assert forall|i: int| 0 <= i < slots.drop_first().len() implies 0
            <= #[trigger] slots.drop_first()[i] < next.len() && slots.drop_first()[i] != k by {
            assert(slots.drop_first()[i] == slots[i + 1]);
        }
        lemma_missing_slot_no_line(next, slots.drop_first(), times.drop_first(), k);
        let rest = emissions(next, slots.drop_first(), times.drop_first());
        assert forall|i: int|
            0 <= i < emissions(meta, slots, times).len() implies !#[trigger] emissions(
            meta,
            slots,
            times,
        )[i] by {
            if i > 0 {
                assert(emissions(meta, slots, times)[i] == rest[i - 1]);
            }
        }
    }
}

/// No series is open yet for the reading's device.
#[derive(Clone, Copy, Debug, PartialEq, Eq, Structural)]
pub struct NotOpen;

/// The open series, at most one per device.
pub struct SeriesTable {
    series: Vec<Series>,
}

impl SeriesTable {
    pub closed spec fn table(&self) -> Seq<Series> {
        self.series@
    }

    pub open spec fn wf(&self) -> bool {
        &&& forall|i: int| 0 <= i < self.table().len() ==> (#[trigger] self.table()[i]).wf()
        &&& forall|i: int, j: int|
            0 <= i < j < self.table().len() ==> (#[trigger] self.table()[i]).device
                != (#[trigger] self.table()[j]).device
    }

    pub open spec fn holds(&self, device: Device) -> bool {
        exists|i: int| 0 <= i < self.table().len() && (#[trigger] self.table()[i]).device == device
    }

    pub fn new() -> (r: SeriesTable)
        ensures
            r.wf(),
            r.table().len() == 0,
    {
        SeriesTable { series: Vec::new() }
    }

    /// Position of the series of `device`, if one is open.
    pub fn index_of(&self, device: Device) -> (r: Option<usize>)
        ensures
            r.is_some() == self.holds(device),
            r.is_some() ==> r.unwrap() < self.table().len() && self.table()[r.unwrap() as int].device
                == device,
    {
        let mut i: usize = 0;
        while i < self.series.len()
            invariant
                i <= self.table().len(),
                forall|j: int| 0 <= j < i ==> (#[trigger] self.table()[j]).device != device,
            decreases self.table().len() - i,
        {
            if self.series[i].device == device {
                return Some(i);
            }
            i = i + 1;
        }
        None
    }

    /// Adds a series for a device that has none yet; a series for a device
    /// that already has one is not added.
    pub fn insert(&mut self, series: Series) -> (r: bool)
        requires
            old(self).wf(),
            series.wf(),
        ensures
            final(self).wf(),
            r == !old(self).holds(series.device),
            r ==> final(self).table() == old(self).table().push(series),
            !r ==> final(self).table() == old(self).table(),
    {
        if self.index_of(series.device).is_some() {
            return false;
        }
        self.series.push(series);
        true
    }

    /// Stores one value in the series of its device, see [`Series::append`].
    /// `Err(NotOpen)` when no series is open for the device: the caller
    /// opens its file, [`SeriesTable::insert`]s the series and stores again.
    pub fn store(&mut self, reading: &Reading, value: i64, now: u64) -> (r: Result<Option<Line>, NotOpen>)
        requires
            old(self).wf(),
        ensures
            final(self).wf(),
            r.is_err() == !old(self).holds(reading.dev()),
            r.is_err() ==> final(self).table() == old(self).table(),
            r.is_ok() ==> exists|i: int|
                0 <= i < old(self).table().len() && (#[trigger] old(self).table()[i]).device
                    == reading.dev() && final(self).table().len() == old(self).table().len()
                    && (forall|j: int|
                    0 <= j < old(self).table().len() && j != i ==> final(self).table()[j]
                        == old(self).table()[j]) && final(self).table()[i].device
                    == reading.dev() && (exists|k: int|
                    0 <= k < old(self).table()[i].meta@.len()
                        && (#[trigger] old(self).table()[i].meta@[k]).reading.leaf_of()
                        == reading.leaf_of() && final(self).table()[i].meta@ == after_write(
                        old(self).table()[i].meta@,
                        k,
                        now,
                    )) && (r->Ok_0.is_some() == all_fresh(final(self).table()[i].meta@, now)),
    {
        let i = match self.index_of(reading.device()) {
            Some(i) => i,
            None => return Err(NotOpen),
        };
        let mut series = self.series.remove(i);
        let line = series.append(reading, value, now);
        self.series.insert(i, series);
        proof {
            assert forall|j: int| 0 <= j < self.table().len() && j != i implies self.table()[j]
                == old(self).table()[j] by {}
            assert forall|a: int, b: int|
                0 <= a < b < self.table().len() implies (#[trigger] self.table()[a]).device
                != (#[trigger] self.table()[b]).device by {
                assert(old(self).table()[a].device != old(self).table()[b].device);
            }
        }
        Ok(line)
    }
}

} // verus!
