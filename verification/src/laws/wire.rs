//! CTAPHID on the wire: the bytes of every frame, and what every report does.

use crate::error;
use crate::error::Fault;
use crate::hid;
use crate::hid::cmd;
use crate::hid::{KeepAlive, Outcome, Partial, Step, Waiting};
use crate::text;
use vstd::prelude::*;

verus! {

/// The numbers of CTAPHID: the command bytes, the sizes of reports and frames, and the longest
/// message, which is one first frame and 128 continuation frames.
pub proof fn law_wire_numbers()
    ensures
        cmd::CTAPHID_INIT == 0x86,
        cmd::CTAPHID_WINK == 0x88,
        cmd::CTAPHID_CBOR == 0x90,
        cmd::CTAPHID_CANCEL == 0x91,
        cmd::CTAPHID_KEEPALIVE == 0xBB,
        cmd::CTAPHID_ERROR == 0xBF,
        hid::REPORT_SIZE == 64,
        hid::FRAME_SIZE == 65,
        hid::MAX_PAYLOAD == 57 + 128 * 59,
        hid::READ_TIMEOUT_MILLIS == 60_000,
{
}

/// A keep-alive byte says processing, or that a touch is needed, or is passed on as it is.
pub proof fn law_keepalive_bytes(byte: u8)
    ensures
        (hid::keepalive_of(byte) == KeepAlive::Processing) == (byte == 1),
        (hid::keepalive_of(byte) == KeepAlive::UserPresenceNeeded) == (byte == 2),
        byte != 1 && byte != 2 ==> hid::keepalive_of(byte) == KeepAlive::Other(byte),
{
}

/// A message takes as many frames as it needs: 57 bytes fit the first, and 59 each further one.
pub proof fn law_no_frame_too_many(cid: Seq<u8>, command: u8, payload: Seq<u8>)
    ensures
        ({
            let count = hid::message_frames(cid, command, payload).len();
            &&& count >= 1
            &&& payload.len() <= 57 + 59 * (count - 1)
            &&& count > 1 ==> payload.len() > 57 + 59 * (count - 2)
        }),
{
}

/// Every frame of a message is the report id zero, the channel, and then, in the first, the
/// command, the length and the first 57 bytes of payload, or, in the one numbered `k`, the
/// number `k - 1` and the 59 bytes of payload whose turn it is; zeros fill it up to 65 bytes.
pub proof fn law_frame_layout(cid: Seq<u8>, command: u8, payload: Seq<u8>, k: int)
    requires
        cid.len() == 4,
        payload.len() <= 7609,
        0 <= k < hid::message_frames(cid, command, payload).len(),
    ensures
        ({
            let frame = hid::message_frames(cid, command, payload)[k];
            &&& frame.len() == 65
            &&& frame[0] == 0
            &&& frame.subrange(1, 5) == cid
            &&& k == 0 ==> {
                &&& frame[5] == command
                &&& frame[6] * 256 + frame[7] == payload.len()
                &&& forall|i: int|
                    0 <= i < 57 ==> #[trigger] frame[8 + i] == (if i < payload.len() {
                        payload[i]
                    } else {
                        0
                    })
            }
            &&& k > 0 ==> {
                &&& frame[5] == k - 1
                &&& forall|i: int|
                    0 <= i < 59 ==> #[trigger] frame[6 + i] == (if 57 + 59 * (k - 1) + i
                        < payload.len() {
                        payload[57 + 59 * (k - 1) + i]
                    } else {
                        0
                    })
            }
        }),
{
    let frame = hid::message_frames(cid, command, payload)[k];
    assert(frame == hid::frame_at(cid, command, payload, k as nat));
    assert(frame.subrange(1, 5) =~= cid);
    let total = payload.len();
    let start = hid::bytes_before(total, k as nat);
    let end = hid::bytes_before(total, (k + 1) as nat);
    let chunk = payload.subrange(start as int, end as int);
    if k == 0 {
        assert(frame == hid::init_frame(cid, command, total, chunk));
        assert forall|i: int| 0 <= i < 57 implies #[trigger] frame[8 + i] == (if i < total {
            payload[i]
        } else {
            0
        }) by {}
    } else {
        assert(k <= 128);
        assert(start == 57 + 59 * (k - 1));
        assert(frame == hid::cont_frame(cid, (k - 1) as nat, chunk));
        assert forall|i: int| 0 <= i < 59 implies #[trigger] frame[6 + i] == (if 57 + 59 * (k - 1)
            + i < total {
            payload[57 + 59 * (k - 1) + i]
        } else {
            0
        }) by {}
    }
}

/// A reply without a status is its body; one with a status is what follows the status zero, and
/// any other status is the failure.
pub proof fn law_status_byte_decides(status: u8, rest: Seq<u8>, body: Seq<u8>)
    ensures
        hid::completed(false, body) == Ok::<Seq<u8>, Fault>(body),
        hid::completed(true, Seq::empty()) == Err::<Seq<u8>, Fault>(
            Fault::Parse("CBOR response missing status byte"@),
        ),
        hid::completed(true, seq![status] + rest) == (if status == 0 {
            Ok::<Seq<u8>, Fault>(rest)
        } else {
            Err(Fault::Ctap(error::status_of(status)))
        }),
{
    assert((seq![status] + rest).skip(1) =~= rest);
}

/// The first report of the channel: a keep-alive is passed on, an error frame ends the exchange,
/// another command is refused, and the expected one begins the reply, whose length it announces.
pub proof fn law_first_report(waiting: Waiting, report: Seq<u8>)
    requires
        report.len() == 64,
        report.take(4) == waiting.cid,
        waiting.partial is None,
    ensures
        ({
            let outcome = hid::advance(waiting, report);
            let total = report[5] * 256 + report[6];
            if report[4] == 0xBB {
                outcome == Outcome::KeepAlive(hid::keepalive_of(report[7]), waiting)
            } else if report[4] == 0xBF {
                outcome == Outcome::Done(Err(Fault::Ctap(error::status_of(report[7]))))
            } else if report[4] != waiting.expected {
                outcome == Outcome::Done(
                    Err(Fault::Parse("unexpected CTAPHID command byte in response"@)),
                )
            } else if total <= 57 {
                outcome == Outcome::Done(
                    hid::completed(waiting.with_status, report.subrange(7, 7 + total)),
                )
            } else {
                outcome matches Outcome::Pending(next) && next.cid == waiting.cid && next.expected
                    == waiting.expected && next.with_status == waiting.with_status && next.partial
                    == Some(
                    Partial { total: total as nat, body: report.subrange(7, 64), next: 0 },
                )
            }
        }),
{
}

/// A further report of the channel must be the continuation frame whose number is due; it adds
/// its bytes, and the last one completes the reply at the announced length.
pub proof fn law_next_report(waiting: Waiting, partial: Partial, report: Seq<u8>)
    requires
        report.len() == 64,
        report.take(4) == waiting.cid,
        waiting.partial == Some(partial),
        partial.body.len() < partial.total,
    ensures
        ({
            let outcome = hid::advance(waiting, report);
            let left = partial.total - partial.body.len();
            if report[4] >= 0x80 {
                outcome == Outcome::Done(
                    Err(Fault::Parse("expected CTAPHID continuation frame, got init"@)),
                )
            } else if report[4] != partial.next {
                outcome == Outcome::Done(Err(Fault::Parse("CTAPHID continuation sequence skew"@)))
            } else if left <= 59 {
                outcome == Outcome::Done(
                    hid::completed(
                        waiting.with_status,
                        partial.body + report.subrange(5, 5 + left),
                    ),
                )
            } else {
                outcome matches Outcome::Pending(next) && next.cid == waiting.cid && next.expected
                    == waiting.expected && next.with_status == waiting.with_status && (
                next.partial matches Some(more) && more.total == partial.total && more.body
                    == partial.body + report.subrange(5, 64) && more.next == partial.next + 1)
            }
        }),
{
}

/// A report of another channel leaves the exchange as it is.
pub proof fn law_other_channels_are_passed_over(waiting: Waiting, report: Seq<u8>)
    requires
        report.take(4) != waiting.cid,
    ensures
        hid::advance(waiting, report) == Outcome::Pending(waiting),
{
}

/// A step is seen as what it is.
pub proof fn law_steps_are_seen_as_they_are(step: Step)
    ensures
        match step {
            Step::Pending(exchange) => step@ == Outcome::Pending(exchange@),
            Step::KeepAlive(keepalive, exchange) => step@ == Outcome::KeepAlive(
                keepalive,
                exchange@,
            ),
            Step::Done(Ok(body)) => step@ == Outcome::Done(Ok(body@)),
            Step::Done(Err(err)) => step@ == Outcome::Done(Err(err@)),
        },
{
}

/// A handshake is over with the first report of the broadcast channel: it must be the response
/// to the request, seventeen bytes or more, and echo the nonce; then it grants the channel in its
/// bytes 15 to 18, on a device of the version in its bytes 20 to 22.
pub proof fn law_handshake_by_bytes(nonce: Seq<u8>, report: Seq<u8>)
    requires
        nonce.len() == 8,
        report.len() == 64,
    ensures
        ({
            let outcome = hid::granted(nonce, report);
            if !(report[0] == 0xFF && report[1] == 0xFF && report[2] == 0xFF && report[3] == 0xFF) {
                outcome is None
            } else if report[4] != 0x86 {
                outcome == Some(
                    Err::<(Seq<u8>, (u8, u8, u8)), Fault>(
                        Fault::Parse("unexpected CTAPHID command byte in INIT response"@),
                    ),
                )
            } else if report[5] == 0 && report[6] < 17 {
                outcome == Some(
                    Err::<(Seq<u8>, (u8, u8, u8)), Fault>(
                        Fault::Parse("INIT response too short"@),
                    ),
                )
            } else if exists|i: int| 0 <= i < 8 && #[trigger] nonce[i] != report[7 + i] {
                outcome == Some(
                    Err::<(Seq<u8>, (u8, u8, u8)), Fault>(
                        Fault::Parse("INIT response nonce mismatch"@),
                    ),
                )
            } else {
                outcome matches Some(Ok((cid, version))) && cid == seq![
                    report[15],
                    report[16],
                    report[17],
                    report[18],
                ] && version == (report[20], report[21], report[22])
            }
        }),
{
    let head = report.take(4);
    assert(head.len() == 4);
    if report[0] == 0xFF && report[1] == 0xFF && report[2] == 0xFF && report[3] == 0xFF {
        assert(head =~= hid::broadcast_cid());
    } else {
        assert(head[0] == report[0] && head[1] == report[1] && head[2] == report[2] && head[3]
            == report[3]);
        assert(hid::broadcast_cid()[0] == 0xFF && hid::broadcast_cid()[1] == 0xFF
            && hid::broadcast_cid()[2] == 0xFF && hid::broadcast_cid()[3] == 0xFF);
    }
    let echo = report.subrange(7, 15);
    if exists|i: int| 0 <= i < 8 && #[trigger] nonce[i] != report[7 + i] {
        let i = choose|i: int| 0 <= i < 8 && #[trigger] nonce[i] != report[7 + i];
        assert(echo[i] == report[7 + i]);
    } else {
        assert forall|i: int| 0 <= i < 8 implies echo[i] == nonce[i] by {
            assert(echo[i] == report[7 + i]);
        }
        assert(echo =~= nonce);
    }
    assert(report.subrange(15, 19) =~= seq![report[15], report[16], report[17], report[18]]);
}

/// A channel is asked for on the broadcast channel, with the nonce for a payload.
pub proof fn law_handshake_request_by_bytes(nonce: Seq<u8>, frame: Seq<u8>)
    requires
        nonce.len() == 8,
        frame == hid::frame_at(hid::broadcast_cid(), cmd::CTAPHID_INIT, nonce, 0),
    ensures
        frame == seq![0u8, 0xFF, 0xFF, 0xFF, 0xFF, 0x86, 0, 8] + nonce + Seq::new(49, |i: int| 0u8),
{
    assert(nonce.subrange(0, 8) =~= nonce);
    assert(frame =~= seq![0u8, 0xFF, 0xFF, 0xFF, 0xFF, 0x86, 0, 8] + nonce + Seq::new(
        49,
        |i: int| 0u8,
    ));
}

/// A write or read that falls short says how many bytes of how many went over.
pub proof fn law_short_transfers_say_how_short(n: nat)
    ensures
        hid::short_write_message(n) == "short HID write: "@ + text::decimal(n) + " of 65"@,
        hid::short_read_message(n) == "short HID read: "@ + text::decimal(n) + " of 64"@,
{
}

} // verus!
