//! What holds of CTAPHID exchanges as a whole.

use crate::error::Fault;
use crate::hid;
use crate::hid::cmd;
use crate::hid::{Outcome, Partial, Waiting};
use vstd::prelude::*;

verus! {

/// What a run of reports does to an exchange.
pub open spec fn run(waiting: Waiting, reports: Seq<Seq<u8>>) -> Outcome
    decreases reports.len(),
{
    if reports.len() == 0 {
        Outcome::Pending(waiting)
    } else {
        match hid::advance(waiting, reports[0]) {
            Outcome::Pending(next) => run(next, reports.drop_first()),
            Outcome::KeepAlive(_, next) => run(next, reports.drop_first()),
            Outcome::Done(r) => Outcome::Done(r),
        }
    }
}

/// Frames as they come in: without the HID report id.
pub open spec fn as_reports(frames: Seq<Seq<u8>>) -> Seq<Seq<u8>> {
    Seq::new(frames.len(), |i: int| frames[i].skip(1))
}

/// An exchange that waits for its first report.
pub open spec fn fresh(cid: Seq<u8>, expected: u8, with_status: bool) -> Waiting {
    Waiting { cid, expected, with_status, partial: None }
}

/// The exchange once the first `k` frames of a message have come.
spec fn reached(cid: Seq<u8>, command: u8, with_status: bool, payload: Seq<u8>, k: nat) -> Waiting {
    Waiting {
        cid,
        expected: command,
        with_status,
        partial: Some(
            Partial {
                total: payload.len(),
                body: payload.take(hid::bytes_before(payload.len(), k) as int),
                next: (k - 1) as u8,
            },
        ),
    }
}

proof fn lemma_continue(cid: Seq<u8>, command: u8, with_status: bool, payload: Seq<u8>, k: nat)
    requires
        cid.len() == 4,
        payload.len() <= hid::MAX_PAYLOAD,
        1 <= k < hid::frame_count(payload.len()),
    ensures
        run(
            reached(cid, command, with_status, payload, k),
            as_reports(hid::message_frames(cid, command, payload)).skip(k as int),
        ) == Outcome::Done(hid::completed(with_status, payload)),
    decreases hid::frame_count(payload.len()) - k,
{
    let total = payload.len();
    let waiting = reached(cid, command, with_status, payload, k);
    let reports = as_reports(hid::message_frames(cid, command, payload)).skip(k as int);
    let chunk = payload.subrange(
        hid::bytes_before(total, k) as int,
        hid::bytes_before(total, k + 1) as int,
    );
    let report = reports[0];
    assert(report == hid::cont_frame(cid, (k - 1) as nat, chunk).skip(1));
    assert(report.take(4) =~= cid);
    assert(k - 1 < 128);
    assert(report[4] == k - 1);
    let left = (total - hid::bytes_before(total, k)) as nat;
    let take = hid::at_most(left, hid::CONT_FRAME_DATA as nat);
    assert(hid::bytes_before(total, k + 1) == hid::bytes_before(total, k) + take);
    assert(report.subrange(5, 5 + take as int) =~= chunk);
    assert(waiting.partial->0.body + chunk =~= payload.take(hid::bytes_before(total, k + 1) as int));
    if hid::bytes_before(total, k + 1) < total {
        assert(k + 1 < hid::frame_count(total));
        assert(hid::advance(waiting, report) == Outcome::Pending(
            reached(cid, command, with_status, payload, k + 1),
        ));
        assert(reports.drop_first() =~= as_reports(
            hid::message_frames(cid, command, payload),
        ).skip((k + 1) as int));
        lemma_continue(cid, command, with_status, payload, k + 1);
    } else {
        assert(payload.take(total as int) =~= payload);
    }
}

/// What one side cuts into frames, the other puts together again: the frames of a message, read
/// as reports on its channel, complete the exchange with the message's payload.
pub proof fn law_frames_reassemble(
    cid: Seq<u8>,
    command: u8,
    with_status: bool,
    payload: Seq<u8>,
)
    requires
        cid.len() == 4,
        payload.len() <= hid::MAX_PAYLOAD,
        command != cmd::CTAPHID_KEEPALIVE,
        command != cmd::CTAPHID_ERROR,
    ensures
        run(
            fresh(cid, command, with_status),
            as_reports(hid::message_frames(cid, command, payload)),
        ) == Outcome::Done(hid::completed(with_status, payload)),
{
    let total = payload.len();
    let waiting = fresh(cid, command, with_status);
    let reports = as_reports(hid::message_frames(cid, command, payload));
    let chunk = payload.subrange(0, hid::bytes_before(total, 1) as int);
    let report = reports[0];
    assert(report == hid::init_frame(cid, command, total, chunk).skip(1));
    assert(report.take(4) =~= cid);
    assert(report[4] == command);
    assert(hid::be16(report[5], report[6]) == total);
    assert(report.subrange(7, 7 + hid::at_most(total, hid::INIT_FRAME_DATA as nat) as int) =~= chunk);
    assert(chunk =~= payload.take(hid::bytes_before(total, 1) as int));
    if hid::bytes_before(total, 1) < total {
        assert(hid::advance(waiting, report) == Outcome::Pending(
            reached(cid, command, with_status, payload, 1),
        ));
        assert(reports.drop_first() =~= reports.skip(1));
        lemma_continue(cid, command, with_status, payload, 1);
    } else {
        assert(payload.take(total as int) =~= payload);
    }
}

/// A report of another channel changes nothing, wherever in an exchange it comes.
pub proof fn law_stray_reports_are_ignored(
    waiting: Waiting,
    before: Seq<Seq<u8>>,
    stray: Seq<u8>,
    after: Seq<Seq<u8>>,
)
    requires
        stray.take(4) != waiting.cid,
    ensures
        run(waiting, before + seq![stray] + after) == run(waiting, before + after),
    decreases before.len(),
{
    let with = before + seq![stray] + after;
    let plain = before + after;
    if before.len() == 0 {
        assert(with[0] == stray);
        assert(with.drop_first() =~= plain);
    } else {
        assert(with[0] == before[0] && plain[0] == before[0]);
        assert(with.drop_first() =~= before.drop_first() + seq![stray] + after);
        assert(plain.drop_first() =~= before.drop_first() + after);
        match hid::advance(waiting, before[0]) {
            Outcome::Pending(next) => {
                law_stray_reports_are_ignored(next, before.drop_first(), stray, after);
            },
            Outcome::KeepAlive(_, next) => {
                law_stray_reports_are_ignored(next, before.drop_first(), stray, after);
            },
            Outcome::Done(_) => {},
        }
    }
}

/// Keep-alives before the reply are drained: however many come, the reply is what it would be
/// without them.
pub proof fn law_keepalives_are_drained(
    waiting: Waiting,
    keepalives: Seq<Seq<u8>>,
    after: Seq<Seq<u8>>,
)
    requires
        waiting.partial is None,
        forall|i: int|
            0 <= i < keepalives.len() ==> (#[trigger] keepalives[i]).take(4) == waiting.cid
                && keepalives[i][4] == cmd::CTAPHID_KEEPALIVE,
    ensures
        run(waiting, keepalives + after) == run(waiting, after),
    decreases keepalives.len(),
{
    if keepalives.len() == 0 {
        assert(keepalives + after =~= after);
    } else {
        assert((keepalives + after)[0] == keepalives[0]);
        assert((keepalives + after).drop_first() =~= keepalives.drop_first() + after);
        assert forall|i: int| 0 <= i < keepalives.drop_first().len() implies (
        #[trigger] keepalives.drop_first()[i]).take(4) == waiting.cid
            && keepalives.drop_first()[i][4] == cmd::CTAPHID_KEEPALIVE by {
            assert(keepalives.drop_first()[i] == keepalives[i + 1]);
        }
        law_keepalives_are_drained(waiting, keepalives.drop_first(), after);
    }
}

/// An error frame before the reply ends the exchange with the status it carries, whatever
/// command was sent.
pub proof fn law_error_frames_end_the_exchange(waiting: Waiting, report: Seq<u8>)
    requires
        waiting.partial is None,
        report.take(4) == waiting.cid,
        report[4] == cmd::CTAPHID_ERROR,
    ensures
        run(waiting, seq![report]) == Outcome::Done(
            Err(Fault::Ctap(crate::error::status_of(report[7]))),
        ),
{
    assert(seq![report][0] == report);
}

/// A reply that completes has the length that its first frame announced.
pub proof fn law_reply_has_the_announced_length(waiting: Waiting, report: Seq<u8>)
    requires
        report.len() == hid::REPORT_SIZE,
        !waiting.with_status,
        waiting.partial matches Some(partial) ==> partial.body.len() < partial.total,
    ensures
        hid::advance(waiting, report) matches Outcome::Done(Ok(body)) ==> body.len() == (
        match waiting.partial {
            Some(partial) => partial.total,
            None => hid::be16(report[5], report[6]),
        }),
{
}

/// A well-formed `CTAPHID_INIT` response: the nonce it echoes, the channel it grants, and the
/// versions and capabilities it reports.
pub open spec fn init_reply(
    nonce: Seq<u8>,
    cid: Seq<u8>,
    protocol: u8,
    version: (u8, u8, u8),
    capabilities: u8,
) -> Seq<u8> {
    hid::broadcast_cid() + seq![cmd::CTAPHID_INIT, 0u8, 17u8] + nonce + cid + seq![
        protocol,
        version.0,
        version.1,
        version.2,
        capabilities,
    ] + Seq::new(40, |i: int| 0u8)
}

/// The answer to a handshake's nonce opens the channel that it grants; an answer to any other
/// nonce opens none.
pub proof fn law_handshake_opens_the_granted_channel(
    nonce: Seq<u8>,
    echoed: Seq<u8>,
    cid: Seq<u8>,
    protocol: u8,
    version: (u8, u8, u8),
    capabilities: u8,
)
    requires
        nonce.len() == 8,
        echoed.len() == 8,
        cid.len() == 4,
    ensures
        hid::granted(nonce, init_reply(echoed, cid, protocol, version, capabilities)) == (if echoed
            == nonce {
            Some(Ok::<(Seq<u8>, (u8, u8, u8)), Fault>((cid, version)))
        } else {
            Some(Err(Fault::Parse("INIT response nonce mismatch"@)))
        }),
{
    let report = init_reply(echoed, cid, protocol, version, capabilities);
    assert(report.take(4) =~= hid::broadcast_cid());
    assert(report.subrange(7, 15) =~= echoed);
    assert(report.subrange(15, 19) =~= cid);
}

} // verus!
