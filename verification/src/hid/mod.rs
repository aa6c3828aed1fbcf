//! CTAP-HID framing: how a message is cut into reports, and how the reports of a reply are put
//! together again. What moves the reports is the caller: [`Transport`] says which frames to
//! write, and [`Exchange`] takes the reports that come back, one at a time.

use crate::error::{CtapStatus, Error, Fault};
use crate::outside::random;
use crate::text;
use vstd::prelude::*;

pub mod cmd;
pub mod laws;

verus! {

/// Fixed CTAPHID report size.
pub const REPORT_SIZE: usize = 64;

/// A report as it is written, behind its HID report id.
pub const FRAME_SIZE: usize = 65;

/// How long to wait for a report, in milliseconds: a backstop for a wedged device. Real timing
/// is driven by KEEPALIVE frames.
pub const READ_TIMEOUT_MILLIS: i32 = 60_000;

/// Payload bytes that fit the first frame of a message.
pub const INIT_FRAME_DATA: usize = 57;

/// Payload bytes that fit each further frame.
pub const CONT_FRAME_DATA: usize = 59;

/// The longest message: the first frame and 128 continuation frames.
pub const MAX_PAYLOAD: usize = 7609;

/// Keep-alive payload from the authenticator.
#[derive(Copy, Clone, Debug, PartialEq, Eq, Structural)]
pub enum KeepAlive {
    /// 0x01. Authenticator is busy processing.
    Processing,
    /// 0x02. Authenticator is waiting for the user to touch the sensor.
    UserPresenceNeeded,
    /// Any other byte.
    Other(u8),
}

/// What a keep-alive byte stands for.
pub open spec fn keepalive_of(byte: u8) -> KeepAlive {
    if byte == 1 {
        KeepAlive::Processing
    } else if byte == 2 {
        KeepAlive::UserPresenceNeeded
    } else {
        KeepAlive::Other(byte)
    }
}

impl KeepAlive {
    /// Decode a single keep-alive byte from a `CTAPHID_KEEPALIVE` frame.
    pub fn from_byte(byte: u8) -> (r: KeepAlive)
        ensures
            r == keepalive_of(byte),
    {
        match byte {
            0x01 => KeepAlive::Processing,
            0x02 => KeepAlive::UserPresenceNeeded,
            other => KeepAlive::Other(other),
        }
    }
}

impl From<u8> for KeepAlive {
    fn from(byte: u8) -> (r: KeepAlive) {
        KeepAlive::from_byte(byte)
    }
}

impl vstd::std_specs::convert::FromSpecImpl<u8> for KeepAlive {
    open spec fn obeys_from_spec() -> bool {
        true
    }

    open spec fn from_spec(byte: u8) -> KeepAlive {
        keepalive_of(byte)
    }
}

/// The number that two bytes hold, high byte first.
pub open spec fn be16(high: u8, low: u8) -> nat {
    (high * 256 + low) as nat
}

/// The lesser of two lengths.
pub open spec fn at_most(n: nat, bound: nat) -> nat {
    if n < bound {
        n
    } else {
        bound
    }
}

/// Bytes filled up with zeros to a frame.
pub open spec fn padded(bytes: Seq<u8>) -> Seq<u8> {
    bytes + Seq::new((FRAME_SIZE - bytes.len()) as nat, |i: int| 0u8)
}

/// The first frame of a message of `total` payload bytes.
pub open spec fn init_frame(cid: Seq<u8>, command: u8, total: nat, chunk: Seq<u8>) -> Seq<u8> {
    padded(seq![0u8] + cid + seq![command, (total / 256) as u8, (total % 256) as u8] + chunk)
}

/// The continuation frame with the given number.
pub open spec fn cont_frame(cid: Seq<u8>, index: nat, chunk: Seq<u8>) -> Seq<u8> {
    padded(seq![0u8] + cid + seq![(index % 128) as u8] + chunk)
}

/// How many of a message's `total` payload bytes its first `k` frames hold.
pub open spec fn bytes_before(total: nat, k: nat) -> nat {
    if k == 0 {
        0
    } else {
        at_most(total, (INIT_FRAME_DATA + CONT_FRAME_DATA * (k - 1)) as nat)
    }
}

/// How many frames a message of `total` payload bytes takes.
pub open spec fn frame_count(total: nat) -> nat {
    if total <= INIT_FRAME_DATA {
        1
    } else {
        (1 + (total - INIT_FRAME_DATA + CONT_FRAME_DATA - 1) / CONT_FRAME_DATA as int) as nat
    }
}

/// The `k`-th frame of a message.
pub open spec fn frame_at(cid: Seq<u8>, command: u8, payload: Seq<u8>, k: nat) -> Seq<u8> {
    let chunk = payload.subrange(
        bytes_before(payload.len(), k) as int,
        bytes_before(payload.len(), k + 1) as int,
    );
    if k == 0 {
        init_frame(cid, command, payload.len(), chunk)
    } else {
        cont_frame(cid, (k - 1) as nat, chunk)
    }
}

/// The frames of a message.
pub open spec fn message_frames(cid: Seq<u8>, command: u8, payload: Seq<u8>) -> Seq<Seq<u8>> {
    Seq::new(frame_count(payload.len()), |k: int| frame_at(cid, command, payload, k as nat))
}

/// The bytes of each frame.
pub open spec fn frame_bytes(frames: Seq<[u8; FRAME_SIZE]>) -> Seq<Seq<u8>> {
    Seq::new(frames.len(), |i: int| frames[i]@)
}

/// One frame: report id, channel, head and chunk, filled up with zeros.
fn build_frame(cid: &[u8; 4], head: &[u8], chunk: &[u8]) -> (frame: [u8; FRAME_SIZE])
    requires
        head@.len() + chunk@.len() <= 60,
    ensures
        frame@ == padded(seq![0u8] + cid@ + head@ + chunk@),
{
    let mut bytes: Vec<u8> = Vec::new();
    bytes.push(0);
    text::push_bytes(&mut bytes, cid.as_slice());
    text::push_bytes(&mut bytes, head);
    text::push_bytes(&mut bytes, chunk);
    let ghost written = seq![0u8] + cid@ + head@ + chunk@;
    assert(bytes@ =~= written);
    while bytes.len() < FRAME_SIZE
        invariant
            written.len() <= bytes@.len() <= FRAME_SIZE,
            forall|j: int| 0 <= j < written.len() ==> bytes@[j] == written[j],
            forall|j: int| written.len() <= j < bytes@.len() ==> bytes@[j] == 0,
        decreases FRAME_SIZE - bytes.len(),
    {
        bytes.push(0);
    }
    assert(bytes@ =~= padded(written));
    text::to_array::<FRAME_SIZE>(bytes.as_slice())
}

/// Fragment `payload` into one init frame and zero or more continuation frames.
fn fragment(cid: &[u8; 4], command: u8, payload: &[u8]) -> (r: Result<
    Vec<[u8; FRAME_SIZE]>,
    Error,
>)
    ensures
        match r {
            Ok(frames) => payload@.len() <= MAX_PAYLOAD && frame_bytes(frames@) == message_frames(
                cid@,
                command,
                payload@,
            ),
            Err(err) => payload@.len() > MAX_PAYLOAD && err@ == Fault::Parse(
                "payload exceeds CTAPHID wire ceiling (7609 bytes)"@,
            ),
        },
{
    if payload.len() > MAX_PAYLOAD {
        return Err(Error::Parse("payload exceeds CTAPHID wire ceiling (7609 bytes)"));
    }
    let total: usize = payload.len();
    let mut end: usize = if total < INIT_FRAME_DATA {
        total
    } else {
        INIT_FRAME_DATA
    };
    let chunk = vstd::slice::slice_subrange(payload, 0, end);
    let head: [u8; 3] = [command, (total / 256) as u8, (total % 256) as u8];
    assert(head@ =~= seq![command, (total / 256) as u8, (total % 256) as u8]);
    let first = build_frame(cid, head.as_slice(), chunk);
    let mut frames: Vec<[u8; FRAME_SIZE]> = Vec::new();
    frames.push(first);
    let mut index: u8 = 0;
    assert(frames@[0]@ == frame_at(cid@, command, payload@, 0));
    while end < total
        invariant
            total == payload@.len(),
            total <= MAX_PAYLOAD,
            frames@.len() == index + 1,
            end == bytes_before(total as nat, (index + 1) as nat),
            end < total ==> index < 128,
            index < frame_count(total as nat),
            forall|k: int|
                0 <= k < frames@.len() ==> (#[trigger] frames@[k])@ == frame_at(
                    cid@,
                    command,
                    payload@,
                    k as nat,
                ),
        decreases total - end,
    {
        let next: usize = if total - end < CONT_FRAME_DATA {
            total
        } else {
            end + CONT_FRAME_DATA
        };
        let chunk = vstd::slice::slice_subrange(payload, end, next);
        let head: [u8; 1] = [index];
        assert(head@ =~= seq![(index as nat % 128) as u8]);
        let frame = build_frame(cid, head.as_slice(), chunk);
        frames.push(frame);
        index += 1;
        end = next;
        assert(frames@[index as int]@ == frame_at(cid@, command, payload@, index as nat));
    }
    assert(frames@.len() == frame_count(total as nat));
    assert(frame_bytes(frames@) =~= message_frames(cid@, command, payload@));
    Ok(frames)
}

/// A reply that has begun: its announced length, what has come of it, and the number that the
/// next continuation frame must carry.
pub struct Partial {
    pub total: nat,
    pub body: Seq<u8>,
    pub next: u8,
}

/// What an [`Exchange`] is waiting for.
pub struct Waiting {
    /// The channel.
    pub cid: Seq<u8>,
    /// The command byte that the reply must carry.
    pub expected: u8,
    /// Whether the reply starts with a CTAP status byte.
    pub with_status: bool,
    /// The part of the reply that has come.
    pub partial: Option<Partial>,
}

/// What a report does to an [`Exchange`].
pub enum Outcome {
    Pending(Waiting),
    KeepAlive(KeepAlive, Waiting),
    Done(Result<Seq<u8>, Fault>),
}

/// What a complete reply body gives: the body itself, or, where it starts with a CTAP status,
/// what follows a success status.
pub open spec fn completed(with_status: bool, body: Seq<u8>) -> Result<Seq<u8>, Fault> {
    if !with_status {
        Ok(body)
    } else if body.len() == 0 {
        Err(Fault::Parse("CBOR response missing status byte"@))
    } else if body[0] == 0 {
        Ok(body.skip(1))
    } else {
        Err(Fault::Ctap(crate::error::status_of(body[0])))
    }
}

/// The exchange once `body` has come of a reply of `total` bytes.
pub open spec fn collected(waiting: Waiting, total: nat, body: Seq<u8>, next: u8) -> Outcome {
    if body.len() < total {
        Outcome::Pending(Waiting { partial: Some(Partial { total, body, next }), ..waiting })
    } else {
        Outcome::Done(completed(waiting.with_status, body))
    }
}

/// What a report does to an exchange: reports of other channels are skipped; before the reply
/// begins, keep-alives are passed on and error frames end the exchange; then continuation
/// frames must come in order until the announced length is reached.
pub open spec fn advance(waiting: Waiting, report: Seq<u8>) -> Outcome {
    if report.take(4) != waiting.cid {
        Outcome::Pending(waiting)
    } else {
        match waiting.partial {
            None => if report[4] == cmd::CTAPHID_KEEPALIVE {
                Outcome::KeepAlive(keepalive_of(report[7]), waiting)
            } else if report[4] == cmd::CTAPHID_ERROR {
                Outcome::Done(Err(Fault::Ctap(crate::error::status_of(report[7]))))
            } else if report[4] != waiting.expected {
                Outcome::Done(Err(Fault::Parse("unexpected CTAPHID command byte in response"@)))
            } else {
                let total = be16(report[5], report[6]);
                collected(
                    waiting,
                    total,
                    report.subrange(7, 7 + at_most(total, INIT_FRAME_DATA as nat) as int),
                    0,
                )
            },
            Some(partial) => if report[4] >= 0x80 {
                Outcome::Done(Err(Fault::Parse("expected CTAPHID continuation frame, got init"@)))
            } else if report[4] != partial.next {
                Outcome::Done(Err(Fault::Parse("CTAPHID continuation sequence skew"@)))
            } else {
                let left = (partial.total - partial.body.len()) as nat;
                collected(
                    waiting,
                    partial.total,
                    partial.body + report.subrange(5, 5 + at_most(left, CONT_FRAME_DATA as nat) as int),
                    ((partial.next + 1) % 256) as u8,
                )
            },
        }
    }
}

/// A command that has been sent and whose reply is being read.
pub struct Exchange {
    cid: [u8; 4],
    expected: u8,
    with_status: bool,
    begun: bool,
    total: usize,
    body: Vec<u8>,
    next: u8,
}

/// What [`Exchange::step`] made of a report.
pub enum Step {
    /// The reply is not complete; read the next report.
    Pending(Exchange),
    /// The device is still at work and says so; read the next report.
    KeepAlive(KeepAlive, Exchange),
    /// The exchange is over.
    Done(Result<Vec<u8>, Error>),
}

impl View for Exchange {
    type V = Waiting;

    closed spec fn view(&self) -> Waiting {
        Waiting {
            cid: self.cid@,
            expected: self.expected,
            with_status: self.with_status,
            partial: if self.begun {
                Some(Partial { total: self.total as nat, body: self.body@, next: self.next })
            } else {
                None
            },
        }
    }
}

impl View for Step {
    type V = Outcome;

    open spec fn view(&self) -> Outcome {
        match *self {
            Step::Pending(exchange) => Outcome::Pending(exchange@),
            Step::KeepAlive(keepalive, exchange) => Outcome::KeepAlive(keepalive, exchange@),
            Step::Done(r) => Outcome::Done(crate::error::seen(r)),
        }
    }
}

/// The body of a complete reply, without the CTAP status byte where it starts with one.
fn finish(with_status: bool, body: Vec<u8>) -> (r: Result<Vec<u8>, Error>)
    ensures
        crate::error::seen(r) == completed(with_status, body@),
{
    if !with_status {
        return Ok(body);
    }
    if body.len() == 0 {
        return Err(Error::Parse("CBOR response missing status byte"));
    }
    let status = CtapStatus::from_byte(body[0]);
    if status == CtapStatus::Success {
        Ok(text::copy_bytes(vstd::slice::slice_subrange(body.as_slice(), 1, body.len())))
    } else {
        Err(Error::Ctap(status))
    }
}

impl Exchange {
    #[verifier::type_invariant]
    spec fn inv(self) -> bool {
        self.begun ==> self.body@.len() < self.total <= 0xFFFF
    }

    /// An exchange that waits for its first report.
    fn begin(cid: &[u8; 4], expected: u8, with_status: bool) -> (exchange: Exchange)
        ensures
            exchange@ == (Waiting { cid: cid@, expected, with_status, partial: None }),
    {
        Exchange {
            cid: *cid,
            expected,
            with_status,
            begun: false,
            total: 0,
            body: Vec::new(),
            next: 0,
        }
    }

    /// The exchange with `body` of a reply of `total` bytes read, or its end.
    fn collect(
        cid: [u8; 4],
        expected: u8,
        with_status: bool,
        total: usize,
        body: Vec<u8>,
        next: u8,
    ) -> (step: Step)
        requires
            total <= 0xFFFF,
        ensures
            step@ == collected(
                Waiting { cid: cid@, expected, with_status, partial: None },
                total as nat,
                body@,
                next,
            ),
    {
        if body.len() < total {
            Step::Pending(Exchange { cid, expected, with_status, begun: true, total, body, next })
        } else {
            Step::Done(finish(with_status, body))
        }
    }

    /// Take the next report that the device sent.
    pub fn step(self, report: &[u8; REPORT_SIZE]) -> (step: Step)
        ensures
            step@ == advance(self@, report@),
    {
        proof {
            use_type_invariant(&self);
        }
        let bytes = report.as_slice();
        let address = vstd::slice::slice_subrange(bytes, 0, 4);
        assert(address@ =~= report@.take(4));
        if !text::same_bytes(address, self.cid.as_slice()) {
            return Step::Pending(self);
        }
        let command = bytes[4];
        if !self.begun {
            if command == cmd::CTAPHID_KEEPALIVE {
                return Step::KeepAlive(KeepAlive::from_byte(bytes[7]), self);
            }
            if command == cmd::CTAPHID_ERROR {
                return Step::Done(Err(Error::Ctap(CtapStatus::from_byte(bytes[7]))));
            }
            if command != self.expected {
                return Step::Done(Err(Error::Parse("unexpected CTAPHID command byte in response")));
            }
            let total: usize = bytes[5] as usize * 256 + bytes[6] as usize;
            let take: usize = if total < INIT_FRAME_DATA {
                total
            } else {
                INIT_FRAME_DATA
            };
            let body = text::copy_bytes(vstd::slice::slice_subrange(bytes, 7, 7 + take));
            Exchange::collect(self.cid, self.expected, self.with_status, total, body, 0)
        } else {
            if command >= 0x80 {
                return Step::Done(
                    Err(Error::Parse("expected CTAPHID continuation frame, got init")),
                );
            }
            if command != self.next {
                return Step::Done(Err(Error::Parse("CTAPHID continuation sequence skew")));
            }
            let left: usize = self.total - self.body.len();
            let take: usize = if left < CONT_FRAME_DATA {
                left
            } else {
                CONT_FRAME_DATA
            };
            let mut body = self.body;
            text::push_bytes(&mut body, vstd::slice::slice_subrange(bytes, 5, 5 + take));
            let next: u8 = self.next.wrapping_add(1);
            Exchange::collect(self.cid, self.expected, self.with_status, self.total, body, next)
        }
    }
}

/// An allocated CTAPHID channel, ready to issue commands.
pub struct Transport {
    cid: [u8; 4],
    firmware_version: (u8, u8, u8),
}

impl Transport {
    /// The channel's id.
    pub closed spec fn channel(&self) -> Seq<u8> {
        self.cid@
    }

    /// The version that the device reported.
    pub closed spec fn version(&self) -> (u8, u8, u8) {
        self.firmware_version
    }

    /// Firmware version reported in the `CTAPHID_INIT` response, as `(major, minor, build)`.
    pub fn firmware_version(&self) -> (r: (u8, u8, u8))
        ensures
            r == self.version(),
    {
        self.firmware_version
    }

    /// Send a CBOR command: the frames to write, and the exchange that reads the reply. The
    /// reply is the response body with the CTAP status byte stripped; a non-zero status
    /// becomes [`Error::Ctap`].
    ///
    /// # Errors
    ///
    /// [`Error::Parse`] if the payload is longer than [`MAX_PAYLOAD`].
    pub fn transact(&self, payload: &[u8]) -> (r: Result<
        (Vec<[u8; FRAME_SIZE]>, Exchange),
        Error,
    >)
        ensures
            match r {
                Ok((frames, exchange)) => {
                    &&& self.channel().len() == 4
                    &&& payload@.len() <= MAX_PAYLOAD
                    &&& frame_bytes(frames@) == message_frames(
                        self.channel(),
                        cmd::CTAPHID_CBOR,
                        payload@,
                    )
                    &&& exchange@ == (Waiting {
                        cid: self.channel(),
                        expected: cmd::CTAPHID_CBOR,
                        with_status: true,
                        partial: None,
                    })
                },
                Err(err) => payload@.len() > MAX_PAYLOAD && err@ == Fault::Parse(
                    "payload exceeds CTAPHID wire ceiling (7609 bytes)"@,
                ),
            },
    {
        let frames = fragment(&self.cid, cmd::CTAPHID_CBOR, payload)?;
        Ok((frames, Exchange::begin(&self.cid, cmd::CTAPHID_CBOR, true)))
    }

    /// Blink or buzz the device: the frames to write, and the exchange that reads the reply,
    /// whose body says nothing. Optional for devices; those without it answer with
    /// [`CtapStatus::InvalidCommand`].
    pub fn wink(&self) -> (r: (Vec<[u8; FRAME_SIZE]>, Exchange))
        ensures
            self.channel().len() == 4,
            frame_bytes(r.0@) == message_frames(
                self.channel(),
                cmd::CTAPHID_WINK,
                Seq::<u8>::empty(),
            ),
            r.1@ == (Waiting {
                cid: self.channel(),
                expected: cmd::CTAPHID_WINK,
                with_status: false,
                partial: None,
            }),
    {
        let mut frames: Vec<[u8; FRAME_SIZE]> = Vec::new();
        frames.push(lone_frame(&self.cid, cmd::CTAPHID_WINK));
        assert(frame_bytes(frames@) =~= message_frames(
            self.channel(),
            cmd::CTAPHID_WINK,
            Seq::<u8>::empty(),
        ));
        (frames, Exchange::begin(&self.cid, cmd::CTAPHID_WINK, false))
    }

    /// Fire-and-forget `CTAPHID_CANCEL`: the frames to write. The device surfaces the cancel as
    /// [`CtapStatus::KeepaliveCancel`] on the in-flight command's reply, not as a reply to this
    /// frame.
    pub fn cancel(&self) -> (frames: Vec<[u8; FRAME_SIZE]>)
        ensures
            self.channel().len() == 4,
            frame_bytes(frames@) == message_frames(
                self.channel(),
                cmd::CTAPHID_CANCEL,
                Seq::<u8>::empty(),
            ),
    {
        let mut frames: Vec<[u8; FRAME_SIZE]> = Vec::new();
        frames.push(lone_frame(&self.cid, cmd::CTAPHID_CANCEL));
        assert(frame_bytes(frames@) =~= message_frames(
            self.channel(),
            cmd::CTAPHID_CANCEL,
            Seq::<u8>::empty(),
        ));
        frames
    }

    /// Send a CTAPHID vendor command (`0xC0..=0xFF`): the frames to write, and the exchange
    /// that reads the raw response body. The argument is the **wire byte**, that is the
    /// init-frame command field with bit 7 already set: `SoloKey`'s `SOLO_VERSION` (logical
    /// `0x53`) is wire byte `0xD3`.
    ///
    /// # Errors
    ///
    /// [`Error::Parse`] if bit 7 of `command` is clear, or the payload is longer than
    /// [`MAX_PAYLOAD`].
    pub fn vendor_command(&self, command: u8, payload: &[u8]) -> (r: Result<
        (Vec<[u8; FRAME_SIZE]>, Exchange),
        Error,
    >)
        ensures
            match r {
                Ok((frames, exchange)) => {
                    &&& self.channel().len() == 4
                    &&& command >= 0x80
                    &&& payload@.len() <= MAX_PAYLOAD
                    &&& frame_bytes(frames@) == message_frames(self.channel(), command, payload@)
                    &&& exchange@ == (Waiting {
                        cid: self.channel(),
                        expected: command,
                        with_status: false,
                        partial: None,
                    })
                },
                Err(err) => if command < 0x80 {
                    err@ == Fault::Parse(
                        "vendor_command requires an init-frame command byte (bit 7 set)"@,
                    )
                } else {
                    payload@.len() > MAX_PAYLOAD && err@ == Fault::Parse(
                        "payload exceeds CTAPHID wire ceiling (7609 bytes)"@,
                    )
                },
            },
    {
        if command & 0x80 == 0 {
            assert(command < 0x80) by (bit_vector)
                requires
                    command & 0x80 == 0,
            ;
            return Err(
                Error::Parse("vendor_command requires an init-frame command byte (bit 7 set)"),
            );
        }
        assert(command >= 0x80) by (bit_vector)
            requires
                command & 0x80 != 0,
        ;
        let frames = fragment(&self.cid, command, payload)?;
        Ok((frames, Exchange::begin(&self.cid, command, false)))
    }
}

/// The frame of a message without payload.
fn lone_frame(cid: &[u8; 4], command: u8) -> (frame: [u8; FRAME_SIZE])
    ensures
        frame@ == frame_at(cid@, command, Seq::<u8>::empty(), 0),
        frame_count(0) == 1,
{
    let head: [u8; 3] = [command, 0, 0];
    let chunk: Vec<u8> = Vec::new();
    assert(head@ =~= seq![command, 0u8, 0u8]);
    assert(Seq::<u8>::empty().subrange(0, 0) =~= chunk@);
    build_frame(cid, head.as_slice(), chunk.as_slice())
}

/// The channel on which a channel is asked for.
pub open spec fn broadcast_cid() -> Seq<u8> {
    seq![0xFFu8, 0xFF, 0xFF, 0xFF]
}

/// What a report means to a device handshake with the given nonce: nothing, where it is of
/// another channel, or the channel and firmware version that it grants, or a failure.
pub open spec fn granted(nonce: Seq<u8>, report: Seq<u8>) -> Option<
    Result<(Seq<u8>, (u8, u8, u8)), Fault>,
> {
    if report.take(4) != broadcast_cid() {
        None
    } else if report[4] != cmd::CTAPHID_INIT {
        Some(Err(Fault::Parse("unexpected CTAPHID command byte in INIT response"@)))
    } else if be16(report[5], report[6]) < 17 {
        Some(Err(Fault::Parse("INIT response too short"@)))
    } else if report.subrange(7, 15) != nonce {
        Some(Err(Fault::Parse("INIT response nonce mismatch"@)))
    } else {
        Some(Ok((report.subrange(15, 19), (report[20], report[21], report[22]))))
    }
}

/// A `CTAPHID_INIT` handshake with a freshly opened device.
pub struct Handshake {
    nonce: [u8; 8],
}

/// What [`Handshake::step`] made of a report.
pub enum Opening {
    /// The report is of another channel; read the next one.
    Waiting,
    /// The handshake is over.
    Done(Result<Transport, Error>),
}

impl View for Handshake {
    type V = Seq<u8>;

    closed spec fn view(&self) -> Seq<u8> {
        self.nonce@
    }
}

impl Handshake {
    /// A handshake with a random nonce.
    pub fn start() -> (handshake: Handshake)
        ensures
            handshake@.len() == 8,
    {
        let bytes = random::random_bytes(8);
        Handshake::with_nonce(text::to_array::<8>(bytes.as_slice()))
    }

    /// A handshake with the given nonce.
    pub fn with_nonce(nonce: [u8; 8]) -> (handshake: Handshake)
        ensures
            handshake@ == nonce@,
    {
        Handshake { nonce }
    }

    /// The frame that asks the device for a channel.
    pub fn request(&self) -> (frame: [u8; FRAME_SIZE])
        ensures
            frame@ == frame_at(broadcast_cid(), cmd::CTAPHID_INIT, self@, 0),
    {
        let cid: [u8; 4] = [0xFF, 0xFF, 0xFF, 0xFF];
        let head: [u8; 3] = [cmd::CTAPHID_INIT, 0, 8];
        assert(cid@ =~= broadcast_cid());
        assert(head@ =~= seq![cmd::CTAPHID_INIT, 0u8, 8u8]);
        assert(self@.subrange(0, 8) =~= self@);
        build_frame(&cid, head.as_slice(), self.nonce.as_slice())
    }

    /// Take the next report that the device sent. A response has the layout `nonce(8) | cid(4)
    /// | protocol(1) | major(1) | minor(1) | build(1) | capabilities(1)`.
    pub fn step(&self, report: &[u8; REPORT_SIZE]) -> (r: Opening)
        ensures
            match r {
                Opening::Waiting => granted(self@, report@) is None,
                Opening::Done(Ok(transport)) => granted(self@, report@) == Some(
                    Ok::<(Seq<u8>, (u8, u8, u8)), Fault>((transport.channel(), transport.version())),
                ),
                Opening::Done(Err(err)) => granted(self@, report@) == Some(
                    Err::<(Seq<u8>, (u8, u8, u8)), Fault>(err@),
                ),
            },
    {
        let bytes = report.as_slice();
        let broadcast: [u8; 4] = [0xFF, 0xFF, 0xFF, 0xFF];
        let address = vstd::slice::slice_subrange(bytes, 0, 4);
        assert(address@ =~= report@.take(4));
        assert(broadcast@ =~= broadcast_cid());
        if !text::same_bytes(address, broadcast.as_slice()) {
            return Opening::Waiting;
        }
        if bytes[4] != cmd::CTAPHID_INIT {
            return Opening::Done(
                Err(Error::Parse("unexpected CTAPHID command byte in INIT response")),
            );
        }
        let total: usize = bytes[5] as usize * 256 + bytes[6] as usize;
        if total < 17 {
            return Opening::Done(Err(Error::Parse("INIT response too short")));
        }
        let echo = vstd::slice::slice_subrange(bytes, 7, 15);
        if !text::same_bytes(echo, self.nonce.as_slice()) {
            return Opening::Done(Err(Error::Parse("INIT response nonce mismatch")));
        }
        let cid = text::to_array::<4>(vstd::slice::slice_subrange(bytes, 15, 19));
        Opening::Done(
            Ok(Transport { cid, firmware_version: (bytes[20], bytes[21], bytes[22]) }),
        )
    }
}

/// What a HID write of `written` bytes says.
pub open spec fn short_write_message(written: nat) -> Seq<char> {
    "short HID write: "@ + text::decimal(written) + " of 65"@
}

/// What a HID read of `read` bytes says.
pub open spec fn short_read_message(read: nat) -> Seq<char> {
    "short HID read: "@ + text::decimal(read) + " of 64"@
}

/// Judge the length that a HID write of one frame returned.
///
/// # Errors
///
/// [`Error::Hid`] unless the whole frame was written.
pub fn check_write(written: usize) -> (r: Result<(), Error>)
    ensures
        crate::error::seen(r) == (if written == FRAME_SIZE {
            Ok::<(), Fault>(())
        } else {
            Err(Fault::Hid(short_write_message(written as nat)))
        }),
{
    if written == FRAME_SIZE {
        return Ok(());
    }
    let mut message = "short HID write: ".to_owned();
    text::push_decimal(&mut message, written);
    message.append(" of 65");
    Err(Error::Hid(message))
}

/// Judge the length that a HID read of one report returned.
///
/// # Errors
///
/// [`Error::Hid`] if nothing came in time, or less than a report.
pub fn check_read(read: usize) -> (r: Result<(), Error>)
    ensures
        crate::error::seen(r) == (if read == REPORT_SIZE {
            Ok::<(), Fault>(())
        } else if read == 0 {
            Err(Fault::Hid("HID read timed out"@))
        } else {
            Err(Fault::Hid(short_read_message(read as nat)))
        }),
{
    if read == 0 {
        return Err(Error::Hid("HID read timed out".to_owned()));
    }
    if read == REPORT_SIZE {
        return Ok(());
    }
    let mut message = "short HID read: ".to_owned();
    text::push_decimal(&mut message, read);
    message.append(" of 64");
    Err(Error::Hid(message))
}

} // verus!
