//! The wire format: a message is laid out as bytes, stuffed so that it holds
//! no zero, and ended by a single zero byte.
use vstd::arithmetic::div_mod::{
    lemma_fundamental_div_mod_converse_div, lemma_fundamental_div_mod_converse_mod,
};
use vstd::prelude::*;

use crate::cobs::{cobs_decode, cobs_decoded, cobs_encode, cobs_encoded, lemma_enc_dec};
use crate::affector::Affector;
use crate::large_bedroom;
use crate::large_bedroom::Actuator;
use crate::reading::{Device, Error, Reading};

verus! {

/// Most readings one message carries.
pub const MAX_READINGS: usize = 50;

/// Bytes one reading takes in a message.
pub const READING_LEN: usize = 7;

/// A batch of readings.
pub struct SensorMessage {
    pub values: Vec<Reading>,
}

impl SensorMessage {
    pub fn new() -> (r: SensorMessage)
        ensures
            r.values@.len() == 0,
    {
        SensorMessage { values: Vec::new() }
    }

    /// Adds a reading; hands it back when the batch is full.
    pub fn push(&mut self, reading: Reading) -> (r: Result<(), Reading>)
        ensures
            r.is_ok() == (old(self).values@.len() < MAX_READINGS),
            r.is_ok() ==> final(self).values@ == old(self).values@.push(reading),
            r.is_err() ==> final(self).values@ == old(self).values@ && r == Err::<(), Reading>(
                reading,
            ),
    {
        if self.values.len() < MAX_READINGS {
            self.values.push(reading);
            Ok(())
        } else {
            Err(reading)
        }
    }
}

/// A single error, sent on its own.
pub struct ErrorReport {
    pub error: Error,
}

impl ErrorReport {
    pub fn new(error: Error) -> (r: ErrorReport)
        ensures
            r.error == error,
    {
        ErrorReport { error }
    }
}

/// What nodes send and subscribers receive.
pub enum Msg {
    Readings(SensorMessage),
    ErrorReport(ErrorReport),
}

/// The content of a message.
pub enum MsgView {
    Readings(Seq<Reading>),
    /// The device, the cause (see `bed::Error::cause`) and the message.
    ErrorReport(Device, u8, Seq<u8>),
}

/// Why bytes could not be read as a message.
#[derive(Clone, Copy, Debug, PartialEq, Eq, Structural)]
pub enum DecodeError {
    CorruptEncoding,
}

impl Msg {
    pub open spec fn view_of(&self) -> MsgView {
        match self {
            Msg::Readings(m) => MsgView::Readings(m.values@),
            Msg::ErrorReport(r) => MsgView::ErrorReport(
                r.error.dev(),
                r.error.inner().cause(),
                r.error.inner().msg(),
            ),
        }
    }

    pub open spec fn wf(&self) -> bool {
        view_wf(self.view_of())
    }
}

pub open spec fn view_wf(m: MsgView) -> bool {
    match m {
        MsgView::Readings(rs) => rs.len() <= MAX_READINGS,
        MsgView::ErrorReport(_, cause, msg) => cause < 4 && msg.len()
            <= large_bedroom::bed::MAX_MESSAGE_LEN && (cause >= 2 ==> msg.len() == 0),
    }
}

pub open spec fn byte_of(bits: u32, k: u32) -> u8 {
    ((bits >> (8 * k)) & 0xffu32) as u8
}

pub open spec fn le32(b0: u8, b1: u8, b2: u8, b3: u8) -> u32 {
    (b0 as u32) | ((b1 as u32) << 8u32) | ((b2 as u32) << 16u32) | ((b3 as u32) << 24u32)
}

/// The bytes of one reading: its path, then its payload little endian.
pub open spec fn reading_chunk(r: Reading) -> Seq<u8> {
    seq![
        r.path()[0],
        r.path()[1],
        r.path()[2],
        byte_of(r.bits(), 0),
        byte_of(r.bits(), 1),
        byte_of(r.bits(), 2),
        byte_of(r.bits(), 3),
    ]
}

/// The bytes of a message before stuffing.
pub open spec fn payload(m: MsgView) -> Seq<u8> {
    match m {
        MsgView::Readings(rs) => Seq::new(
            (2 + READING_LEN * rs.len()) as nat,
            |j: int|
                if j == 0 {
                    0u8
                } else if j == 1 {
                    rs.len() as u8
                } else {
                    reading_chunk(rs[(j - 2) / 7])[(j - 2) % 7]
                },
        ),
        MsgView::ErrorReport(d, cause, msg) => seq![
            1u8,
            0u8,
            d.inner().id(),
            cause,
            d.inner().dev_id(),
            msg.len() as u8,
        ] + msg,
    }
}

/// The reading held by the seven bytes of `p` from `k` on, if any.
pub open spec fn chunk_reading(p: Seq<u8>, k: int) -> Option<Reading> {
    Reading::of_parts(p[k], p[k + 1], p[k + 2], le32(p[k + 3], p[k + 4], p[k + 5], p[k + 6]))
}

/// The message the unstuffed bytes `p` hold, if any.
pub open spec fn parse(p: Seq<u8>) -> Option<MsgView> {
    if p.len() < 2 {
        None
    } else if p[0] == 0 {
        let n = p[1] as int;
        if n > MAX_READINGS || p.len() != 2 + READING_LEN * n {
            None
        } else if forall|i: int| 0 <= i < n ==> (#[trigger] chunk_reading(p, 2 + 7 * i)).is_some() {
            Some(MsgView::Readings(Seq::new(n as nat, |i: int| chunk_reading(p, 2 + 7 * i)->Some_0)))
        } else {
            None
        }
    } else if p[0] == 1 {
        if p.len() < 6 || p[1] != 0 || p[3] >= 4 || p[5] > large_bedroom::bed::MAX_MESSAGE_LEN
            || p.len() != 6 + p[5] || (p[3] >= 2 && p[5] != 0) {
            None
        } else {
            match large_bedroom::Device::of_ids(p[2], p[4]) {
                Some(d) => Some(
                    MsgView::ErrorReport(Device::LargeBedroom(d), p[3], p.subrange(6, p.len() as int)),
                ),
                None => None,
            }
        }
    } else {
        None
    }
}

/// The bytes of a frame without its closing zero.
pub open spec fn frame_body(b: Seq<u8>) -> Seq<u8> {
    if b.len() > 0 && b.last() == 0 {
        b.drop_last()
    } else {
        b
    }
}

/// A message as it goes on the wire.
pub open spec fn frame(m: MsgView) -> Seq<u8> {
    cobs_encoded(payload(m)).push(0u8)
}

/// The message a frame holds, if any.
pub open spec fn unframe(b: Seq<u8>) -> Option<MsgView> {
    match cobs_decoded(frame_body(b)) {
        Some(p) => parse(p),
        None => None,
    }
}

proof fn lemma_le32(x: u32)
    ensures
        le32(byte_of(x, 0), byte_of(x, 1), byte_of(x, 2), byte_of(x, 3)) == x,
{
    assert(((x & 0xffu32) as u8 as u32) | ((((x >> 8u32) & 0xffu32) as u8 as u32) << 8u32) | ((((x
        >> 16u32) & 0xffu32) as u8 as u32) << 16u32) | ((((x >> 24u32) & 0xffu32) as u8 as u32)
        << 24u32) == x) by (bit_vector);
    assert(byte_of(x, 0) == (x & 0xffu32) as u8) by {
        assert(x >> 0u32 == x) by (bit_vector);
    }
}

proof fn lemma_div7(i: int, k: int)
    requires
        0 <= k < 7,
        0 <= i,
    ensures
        (7 * i + k) / 7 == i,
        (7 * i + k) % 7 == k,
{
    lemma_fundamental_div_mod_converse_div(7 * i + k, 7, i, k);
    lemma_fundamental_div_mod_converse_mod(7 * i + k, 7, i, k);
}

proof fn lemma_device_ids(d: large_bedroom::Device)
    ensures
        large_bedroom::Device::of_ids(d.id(), d.dev_id()) == Some(d),
{
}

/// Every well formed message reads back from its unstuffed bytes.
pub proof fn lemma_parse_payload(m: MsgView)
    requires
        view_wf(m),
    ensures
        parse(payload(m)) == Some(m),
{
    let p = payload(m);
    match m {
        MsgView::Readings(rs) => {
            let n = rs.len() as int;
            assert(p[1] as int == n);
            assert forall|i: int| 0 <= i < n implies #[trigger] chunk_reading(p, 2 + 7 * i) == Some(
                rs[i],
            ) by {
                assert forall|k: int| 0 <= k < 7 implies p[2 + 7 * i + k] == reading_chunk(
                    rs[i],
                )[k] by {
                    lemma_div7(i, k);
                    assert(7 * i + k < 7 * n) by (nonlinear_arith)
                        requires
                            i < n,
                            k < 7,
                    ;
                }
                assert(p[2 + 7 * i] == reading_chunk(rs[i])[0]);
                assert(p[2 + 7 * i + 1] == reading_chunk(rs[i])[1]);
                assert(p[2 + 7 * i + 2] == reading_chunk(rs[i])[2]);
                assert(p[2 + 7 * i + 3] == reading_chunk(rs[i])[3]);
                assert(p[2 + 7 * i + 4] == reading_chunk(rs[i])[4]);
                assert(p[2 + 7 * i + 5] == reading_chunk(rs[i])[5]);
                assert(p[2 + 7 * i + 6] == reading_chunk(rs[i])[6]);
                lemma_le32(rs[i].bits());
                crate::reading::lemma_parts_rebuild(rs[i]);
            }
            assert(Seq::new(n as nat, |i: int| chunk_reading(p, 2 + 7 * i)->Some_0) =~= rs);
        },
        MsgView::ErrorReport(d, cause, msg) => {
            lemma_device_ids(d.inner());
            assert(p.subrange(6, p.len() as int) =~= msg);
        },
    }
}

/// Decoding a frame gives back the message that was encoded.
pub proof fn lemma_codec_round_trip(m: MsgView)
    requires
        view_wf(m),
    ensures
        unframe(frame(m)) == Some(m),
{
    let p = payload(m);
    lemma_enc_dec(p, 0);
    assert(p.subrange(0, p.len() as int) =~= p);
    assert(frame_body(frame(m)) =~= cobs_encoded(p));
    lemma_parse_payload(m);
}

fn byte_at(bits: u32, k: u32) -> (r: u8)
    requires
        k < 4,
    ensures
        r == byte_of(bits, k),
{
    ((bits >> (8 * k)) & 0xff) as u8
}

fn push_reading(out: &mut Vec<u8>, r: &Reading)
    ensures
        final(out)@ == old(out)@ + reading_chunk(*r),
{
    let key = r.key();
    let bits = r.value_bits();
    out.push(key[0]);
    out.push(key[1]);
    out.push(key[2]);
    out.push(byte_at(bits, 0));
    out.push(byte_at(bits, 1));
    out.push(byte_at(bits, 2));
    out.push(byte_at(bits, 3));
    assert(out@ =~= old(out)@ + reading_chunk(*r));
}

impl Msg {
    /// The bytes of the message before stuffing.
    pub fn payload_bytes(&self) -> (r: Vec<u8>)
        requires
            self.wf(),
        ensures
            r@ == payload(self.view_of()),
    {
        let mut out: Vec<u8> = Vec::new();
        match self {
            Msg::Readings(m) => {
                let ghost full = payload(self.view_of());
                let n = m.values.len();
                out.push(0);
                out.push(n as u8);
                for i in 0..n
                    invariant
                        n == m.values@.len(),
                        n <= MAX_READINGS,
                        full == payload(MsgView::Readings(m.values@)),
                        out@.len() == 2 + 7 * i,
                        forall|j: int| 0 <= j < out@.len() ==> out@[j] == full[j],
                {
                    let ghost before = out@;
                    push_reading(&mut out, &m.values[i]);
                    proof {
                        assert forall|j: int| 0 <= j < out@.len() implies out@[j] == full[j] by {
                            if j >= before.len() {
                                lemma_div7(i as int, j - 2 - 7 * i);
                                assert(out@[j] == reading_chunk(m.values@[i as int])[j - 2 - 7 * i]);
                            }
                        }
                    }
                }
                assert(out@ =~= full);
            },
            Msg::ErrorReport(report) => {
                let Error::LargeBedroom(e) = &report.error;
                let device = e.device();
                out.push(1);
                out.push(0);
                out.push(device.branch_id());
                out.push(e.cause_id());
                out.push(device.device_id());
                let ghost head = out@;
                match e.message() {
                    Some(msg) => {
                        out.push(msg.len() as u8);
                        let ghost head = out@;
                        for i in 0..msg.len()
                            invariant
                                out@ == head + msg@.subrange(0, i as int),
                        {
                            out.push(msg[i]);
                            assert(msg@.subrange(0, i + 1) =~= msg@.subrange(0, i as int).push(
                                msg@[i as int],
                            ));
                        }
                        assert(msg@.subrange(0, msg@.len() as int) =~= msg@);
                    },
                    None => {
                        out.push(0);
                    },
                }
                assert(out@ =~= payload(self.view_of()));
            },
        }
        out
    }

    /// The frame of this message: stuffed bytes and a closing zero.
    pub fn encode(&self) -> (r: Vec<u8>)
        requires
            self.wf(),
        ensures
            r@ == frame(self.view_of()),
            !r@.drop_last().contains(0u8),
            r@.last() == 0,
    {
        let p = self.payload_bytes();
        let mut out: Vec<u8> = Vec::new();
        cobs_encode(&p, &mut out);
        proof {
            lemma_enc_dec(p@, 0);
            assert(out@ =~= cobs_encoded(p@));
        }
        out.push(0);
        assert(out@.drop_last() =~= cobs_encoded(p@));
        out
    }

    /// Reads one frame; its closing zero may be there or not.
    pub fn decode(bytes: &Vec<u8>) -> (r: Result<Msg, DecodeError>)
        ensures
            match unframe(bytes@) {
                Some(m) => r.is_ok() && r.unwrap().view_of() == m && r.unwrap().wf(),
                None => r == Err::<Msg, DecodeError>(DecodeError::CorruptEncoding),
            },
    {
        let len = bytes.len();
        let end = if len > 0 && bytes[len - 1] == 0 {
            len - 1
        } else {
            len
        };
        assert(bytes@.subrange(0, end as int) =~= frame_body(bytes@));
        match cobs_decode(bytes, end) {
            Some(p) => parse_payload(&p),
            None => Err(DecodeError::CorruptEncoding),
        }
    }
}

fn read_le32(p: &Vec<u8>, k: usize) -> (r: u32)
    requires
        k + 4 <= p@.len(),
        k + 4 <= usize::MAX,
    ensures
        r == le32(p@[k as int], p@[k + 1], p@[k + 2], p@[k + 3]),
{
    let b0 = p[k];
    let b1 = p[k + 1];
    let b2 = p[k + 2];
    let b3 = p[k + 3];
    assert(le32(b0, b1, b2, b3) == b0 as u32 + (b1 as u32) * 0x100 + (b2 as u32) * 0x1_0000 + (
    b3 as u32) * 0x100_0000) by (bit_vector);
    b0 as u32 + (b1 as u32) * 0x100 + (b2 as u32) * 0x1_0000 + (b3 as u32) * 0x100_0000
}

/// Reads a message from unstuffed bytes.
pub fn parse_payload(p: &Vec<u8>) -> (r: Result<Msg, DecodeError>)
    ensures
        match parse(p@) {
            Some(m) => r.is_ok() && r.unwrap().view_of() == m && r.unwrap().wf(),
            None => r == Err::<Msg, DecodeError>(DecodeError::CorruptEncoding),
        },
{
    let len = p.len();
    if len < 2 {
        return Err(DecodeError::CorruptEncoding);
    }
    if p[0] == 0 {
        let n = p[1] as usize;
        if n > MAX_READINGS || len != 2 + READING_LEN * n {
            return Err(DecodeError::CorruptEncoding);
        }
        let mut values: Vec<Reading> = Vec::new();
        for i in 0..n
            invariant
                n == p@[1] as int,
                n <= MAX_READINGS,
                len == p@.len(),
                len == 2 + 7 * n,
                values@.len() == i,
                forall|j: int|
                    0 <= j < i ==> (#[trigger] chunk_reading(p@, 2 + 7 * j)).is_some()
                        && values@[j] == chunk_reading(p@, 2 + 7 * j)->Some_0,
        {
            let k = 2 + 7 * i;
            let bits = read_le32(p, k + 3);
            match Reading::from_parts(p[k], p[k + 1], p[k + 2], bits) {
                Some(r) => values.push(r),
                None => {
                    assert(chunk_reading(p@, 2 + 7 * i).is_none());
                    return Err(DecodeError::CorruptEncoding);
                },
            }
        }
        let ghost want = Seq::new(n as nat, |i: int| chunk_reading(p@, 2 + 7 * i)->Some_0);
        assert(values@ =~= want);
        Ok(Msg::Readings(SensorMessage { values }))
    } else if p[0] == 1 {
        if len < 6 || p[1] != 0 || p[3] >= 4 || p[5] as usize > large_bedroom::bed::MAX_MESSAGE_LEN
            || len != 6 + p[5] as usize || (p[3] >= 2 && p[5] != 0) {
            return Err(DecodeError::CorruptEncoding);
        }
        let device = match large_bedroom::Device::from_ids(p[2], p[4]) {
            Some(d) => d,
            None => return Err(DecodeError::CorruptEncoding),
        };
        let mut message: Vec<u8> = Vec::new();
        for i in 6..len
            invariant
                len == p@.len(),
                6 <= len,
                message@ == p@.subrange(6, i as int),
        {
            message.push(p[i]);
            assert(p@.subrange(6, i + 1) =~= p@.subrange(6, i as int).push(p@[i as int]));
        }
        match large_bedroom::Error::from_parts(p[3], device, message) {
            Some(e) => {
                let r = Msg::ErrorReport(ErrorReport { error: Error::LargeBedroom(e) });
                assert(r.view_of() == parse(p@).unwrap()) by {
                    assert(e.msg() =~= p@.subrange(6, len as int));
                }
                Ok(r)
            },
            None => Err(DecodeError::CorruptEncoding),
        }
    } else {
        Err(DecodeError::CorruptEncoding)
    }
}

/// Stuffs `p` and closes the frame with a zero.
pub fn frame_bytes(p: &Vec<u8>) -> (r: Vec<u8>)
    requires
        p@.len() <= 0x1_0000,
    ensures
        r@ == cobs_encoded(p@).push(0u8),
{
    let mut out: Vec<u8> = Vec::new();
    cobs_encode(p, &mut out);
    out.push(0);
    out
}

/// The unstuffed bytes of a frame, if it is well formed; its closing zero
/// may be there or not.
pub fn unframe_bytes(bytes: &Vec<u8>) -> (r: Option<Vec<u8>>)
    ensures
        r.is_some() == cobs_decoded(frame_body(bytes@)).is_some(),
        r.is_some() ==> r.unwrap()@ == cobs_decoded(frame_body(bytes@)).unwrap(),
{
    let len = bytes.len();
    let end = if len > 0 && bytes[len - 1] == 0 {
        len - 1
    } else {
        len
    };
    assert(bytes@.subrange(0, end as int) =~= frame_body(bytes@));
    cobs_decode(bytes, end)
}

pub open spec fn actuator_payload(a: Actuator) -> Seq<u8> {
    match a {
        Actuator::CleanSensor => seq![0u8],
        Actuator::CalibrateCo2 => seq![1u8],
    }
}

pub open spec fn actuator_of(p: Seq<u8>) -> Option<Actuator> {
    if p.len() != 1 {
        None
    } else if p[0] == 0 {
        Some(Actuator::CleanSensor)
    } else if p[0] == 1 {
        Some(Actuator::CalibrateCo2)
    } else {
        None
    }
}

impl Actuator {
    /// The command as a frame of its own.
    pub fn encode(&self) -> (r: Vec<u8>)
        ensures
            r@ == cobs_encoded(actuator_payload(*self)).push(0u8),
    {
        let p: Vec<u8> = match self {
            Actuator::CleanSensor => vec![0u8],
            Actuator::CalibrateCo2 => vec![1u8],
        };
        assert(p@ =~= actuator_payload(*self));
        frame_bytes(&p)
    }

    pub fn decode(bytes: &Vec<u8>) -> (r: Result<Actuator, DecodeError>)
        ensures
            match cobs_decoded(frame_body(bytes@)) {
                Some(p) => match actuator_of(p) {
                    Some(a) => r == Ok::<Actuator, DecodeError>(a),
                    None => r == Err::<Actuator, DecodeError>(DecodeError::CorruptEncoding),
                },
                None => r == Err::<Actuator, DecodeError>(DecodeError::CorruptEncoding),
            },
    {
        match unframe_bytes(bytes) {
            Some(p) => if p.len() != 1 {
                Err(DecodeError::CorruptEncoding)
            } else if p[0] == 0 {
                Ok(Actuator::CleanSensor)
            } else if p[0] == 1 {
                Ok(Actuator::CalibrateCo2)
            } else {
                Err(DecodeError::CorruptEncoding)
            },
            None => Err(DecodeError::CorruptEncoding),
        }
    }
}

/// An actuator command reads back from its own frame.
pub proof fn lemma_actuator_round_trip(a: Actuator)
    ensures
        cobs_decoded(frame_body(cobs_encoded(actuator_payload(a)).push(0u8))) == Some(
            actuator_payload(a),
        ),
        actuator_of(actuator_payload(a)) == Some(a),
{
    let p = actuator_payload(a);
    lemma_enc_dec(p, 0);
    assert(p.subrange(0, p.len() as int) =~= p);
    assert(frame_body(cobs_encoded(p).push(0u8)) =~= cobs_encoded(p));
}

pub open spec fn affector_weight(a: Affector) -> u32 {
    match a {
        Affector::Nau7802LeftCalibrate { known_weight_g } => known_weight_g,
        Affector::Nau7802RightCalibrate { known_weight_g } => known_weight_g,
        _ => 0,
    }
}

/// The bytes of an order: its target, then its parameter little endian.
pub open spec fn affector_payload(a: Affector) -> Seq<u8> {
    seq![
        a.target(),
        byte_of(affector_weight(a), 0),
        byte_of(affector_weight(a), 1),
        byte_of(affector_weight(a), 2),
        byte_of(affector_weight(a), 3),
    ]
}

pub open spec fn affector_of(p: Seq<u8>) -> Option<Affector> {
    if p.len() != 5 {
        None
    } else {
        let w = le32(p[1], p[2], p[3], p[4]);
        if p[0] == 0 && w == 0 {
            Some(Affector::Sps30FanClean)
        } else if p[0] == 1 && w == 0 {
            Some(Affector::Mhz14Calibrate)
        } else if p[0] == 2 {
            Some(Affector::Nau7802LeftCalibrate { known_weight_g: w })
        } else if p[0] == 3 {
            Some(Affector::Nau7802RightCalibrate { known_weight_g: w })
        } else {
            None
        }
    }
}

impl Affector {
    /// The order as a frame of its own, as it is sent to a node.
    pub fn encode(&self) -> (r: Vec<u8>)
        ensures
            r@ == cobs_encoded(affector_payload(*self)).push(0u8),
    {
        let (target, w): (u8, u32) = match *self {
            Affector::Sps30FanClean => (0, 0),
            Affector::Mhz14Calibrate => (1, 0),
            Affector::Nau7802LeftCalibrate { known_weight_g } => (2, known_weight_g),
            Affector::Nau7802RightCalibrate { known_weight_g } => (3, known_weight_g),
        };
        let p: Vec<u8> = vec![target, byte_at(w, 0), byte_at(w, 1), byte_at(w, 2), byte_at(w, 3)];
        assert(p@ =~= affector_payload(*self));
        frame_bytes(&p)
    }

    pub fn decode(bytes: &Vec<u8>) -> (r: Result<Affector, DecodeError>)
        ensures
            match cobs_decoded(frame_body(bytes@)) {
                Some(p) => match affector_of(p) {
                    Some(a) => r == Ok::<Affector, DecodeError>(a),
                    None => r == Err::<Affector, DecodeError>(DecodeError::CorruptEncoding),
                },
                None => r == Err::<Affector, DecodeError>(DecodeError::CorruptEncoding),
            },
    {
        let p = match unframe_bytes(bytes) {
            Some(p) => p,
            None => return Err(DecodeError::CorruptEncoding),
        };
        if p.len() != 5 {
            return Err(DecodeError::CorruptEncoding);
        }
        let w = read_le32(&p, 1);
        if p[0] == 0 && w == 0 {
            Ok(Affector::Sps30FanClean)
        } else if p[0] == 1 && w == 0 {
            Ok(Affector::Mhz14Calibrate)
        } else if p[0] == 2 {
            Ok(Affector::Nau7802LeftCalibrate { known_weight_g: w })
        } else if p[0] == 3 {
            Ok(Affector::Nau7802RightCalibrate { known_weight_g: w })
        } else {
            Err(DecodeError::CorruptEncoding)
        }
    }
}

/// An order reads back from its own frame.
pub proof fn lemma_affector_round_trip(a: Affector)
    ensures
        cobs_decoded(frame_body(cobs_encoded(affector_payload(a)).push(0u8))) == Some(
            affector_payload(a),
        ),
        affector_of(affector_payload(a)) == Some(a),
{
    let p = affector_payload(a);
    lemma_enc_dec(p, 0);
    assert(p.subrange(0, p.len() as int) =~= p);
    assert(frame_body(cobs_encoded(p).push(0u8)) =~= cobs_encoded(p));
    lemma_le32(affector_weight(a));
    lemma_le32(0);
}

} // verus!
