//! What a subscriber of the bus receives, and how one frame read from the
//! bus becomes the messages it yields.
use vstd::prelude::*;

use crate::codec::{unframe, DecodeError, Msg, MsgView};
use crate::reading::{Error, Reading};

verus! {

/// std's I/O error, carried as it is by [`SubscribeError::ConnFailed`].
#[verifier::external_type_specification]
#[verifier::external_body]
pub struct ExIoError(std::io::Error);

/// One update from the bus.
pub enum SubMessage {
    Reading(Reading),
    ErrorReport(Error),
}

/// Why the next update could not be had.
pub enum SubscribeError {
    ConnFailed(std::io::Error),
    DecodeFailed(DecodeError),
    ConnEnded,
}

/// `b` cut or padded with zeros to `n` bytes.
pub open spec fn resized(b: Seq<u8>, n: nat) -> Seq<u8> {
    if n <= b.len() {
        b.subrange(0, n as int)
    } else {
        b + Seq::new((n - b.len()) as nat, |i: int| 0u8)
    }
}

/// Decodes the frame of `n_read` bytes in `buf` and returns its first
/// update; the others are left, in order, in `buffer`. Nothing read means
/// the connection ended; a frame that holds no update is refused like a
/// corrupt one.
pub fn decode_buffer_and_return_first(
    n_read: usize,
    buf: &mut Vec<u8>,
    buffer: &mut Vec<SubMessage>,
) -> (r: Result<SubMessage, SubscribeError>)
    requires
        old(buffer)@.len() == 0,
    ensures
        n_read == 0 ==> r is Err && r->Err_0 is ConnEnded && final(buffer)@.len() == 0,
        n_read > 0 ==> final(buf)@ == resized(old(buf)@, n_read as nat),
        n_read > 0 ==> match unframe(final(buf)@) {
            Some(MsgView::Readings(rs)) => if rs.len() == 0 {
                r is Err && r->Err_0 == SubscribeError::DecodeFailed(DecodeError::CorruptEncoding)
                    && final(buffer)@.len() == 0
            } else {
                &&& r == Ok::<SubMessage, SubscribeError>(SubMessage::Reading(rs[0]))
                &&& final(buffer)@.len() == rs.len() - 1
                &&& forall|i: int|
                    0 <= i < final(buffer)@.len() ==> #[trigger] final(buffer)@[i]
                        == SubMessage::Reading(rs[i + 1])
            },
            Some(MsgView::ErrorReport(d, cause, msg)) => {
                &&& r is Ok
                &&& r->Ok_0 is ErrorReport
                &&& r->Ok_0->ErrorReport_0.dev() == d
                &&& r->Ok_0->ErrorReport_0.inner().cause() == cause
                &&& r->Ok_0->ErrorReport_0.inner().msg() == msg
                &&& final(buffer)@.len() == 0
            },
            None => r is Err && r->Err_0 == SubscribeError::DecodeFailed(
                DecodeError::CorruptEncoding,
            ) && final(buffer)@.len() == 0,
        },
{
    if n_read == 0 {
        return Err(SubscribeError::ConnEnded);
    }
    let ghost before = buf@;
    buf.resize(n_read, 0);
    proof {
        if n_read > before.len() {
            assert forall|i: int| 0 <= i < n_read implies buf@[i] == resized(before, n_read as nat)[i] by {
                if i >= before.len() {
                    assert(vstd::pervasive::cloned::<u8>(0u8, buf@[i]));
                } else {
                    assert(buf@.subrange(0, before.len() as int)[i] == before[i]);
                }
            }
            assert(buf@ =~= resized(before, n_read as nat));
        }
    }
    let decoded = match Msg::decode(buf) {
        Ok(m) => m,
        Err(e) => return Err(SubscribeError::DecodeFailed(e)),
    };
    match decoded {
        Msg::Readings(readings) => {
            let values = readings.values;
            if values.len() == 0 {
                return Err(SubscribeError::DecodeFailed(DecodeError::CorruptEncoding));
            }
            for i in 1..values.len()
                invariant
                    values@.len() >= 1,
                    buffer@.len() == i - 1,
                    forall|j: int|
                        0 <= j < buffer@.len() ==> #[trigger] buffer@[j] == SubMessage::Reading(
                            values@[j + 1],
                        ),
            {
                buffer.push(SubMessage::Reading(values[i]));
            }
            Ok(SubMessage::Reading(values[0]))
        },
        Msg::ErrorReport(report) => Ok(SubMessage::ErrorReport(report.error)),
    }
}

/// Takes the oldest update left over from the last frame.
pub fn next_pending(buffer: &mut Vec<SubMessage>) -> (r: Option<SubMessage>)
    ensures
        old(buffer)@.len() == 0 ==> r.is_none() && final(buffer)@ == old(buffer)@,
        old(buffer)@.len() > 0 ==> r == Some(old(buffer)@[0]) && final(buffer)@ == old(
            buffer,
        )@.drop_first(),
{
    if buffer.len() == 0 {
        None
    } else {
        let r = buffer.remove(0);
        assert(buffer@ =~= old(buffer)@.drop_first());
        Some(r)
    }
}

} // verus!
