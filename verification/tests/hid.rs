//! CTAPHID framing.

use ctap_fido2::error::{CtapStatus, Error};
use ctap_fido2::hid;
use ctap_fido2::hid::cmd;
use ctap_fido2::hid::{Exchange, Handshake, KeepAlive, Opening, Step, Transport};

const CID: [u8; 4] = [0x11, 0x22, 0x33, 0x44];

fn init_reply(nonce: [u8; 8]) -> [u8; 64] {
    let mut report = [0_u8; 64];
    report[..4].copy_from_slice(&[0xFF; 4]);
    report[4] = cmd::CTAPHID_INIT;
    report[6] = 17;
    report[7..15].copy_from_slice(&nonce);
    report[15..19].copy_from_slice(&CID);
    report[19..24].copy_from_slice(&[2, 5, 4, 3, 1]);
    report
}

fn open() -> Transport {
    match Handshake::with_nonce([7; 8]).step(&init_reply([7; 8])) {
        Opening::Done(Ok(transport)) => transport,
        _ => panic!("handshake failed"),
    }
}

fn report(frame: &[u8; 65]) -> [u8; 64] {
    let mut out = [0_u8; 64];
    out.copy_from_slice(&frame[1..]);
    out
}

fn pending(step: Step) -> Exchange {
    match step {
        Step::Pending(exchange) => exchange,
        _ => panic!("exchange not pending"),
    }
}

fn done(step: Step) -> Result<Vec<u8>, Error> {
    match step {
        Step::Done(r) => r,
        _ => panic!("exchange not done"),
    }
}

fn parse_message<T>(r: Result<T, Error>) -> &'static str {
    match r {
        Err(Error::Parse(message)) => message,
        _ => "another outcome",
    }
}

fn opening_message(opening: Opening) -> &'static str {
    match opening {
        Opening::Done(r) => parse_message(r),
        Opening::Waiting => "waiting",
    }
}

#[test]
fn handshake_request_and_reply() {
    let handshake = Handshake::with_nonce([1, 2, 3, 4, 5, 6, 7, 8]);
    let frame = handshake.request();
    assert_eq!(
        frame[..16],
        [0, 0xFF, 0xFF, 0xFF, 0xFF, 0x86, 0, 8, 1, 2, 3, 4, 5, 6, 7, 8]
    );
    assert!(frame[16..].iter().all(|byte| *byte == 0));

    let transport = open();
    assert_eq!(transport.firmware_version(), (5, 4, 3));
    assert_eq!(transport.cancel()[0][1..5], CID);
}

#[test]
fn handshake_failures() {
    let handshake = Handshake::with_nonce([7; 8]);
    assert_eq!(
        opening_message(handshake.step(&init_reply([8; 8]))),
        "INIT response nonce mismatch"
    );
    let mut stray = init_reply([7; 8]);
    stray[0] = 0;
    assert_eq!(opening_message(handshake.step(&stray)), "waiting");
    let mut other = init_reply([7; 8]);
    other[4] = cmd::CTAPHID_CBOR;
    assert_eq!(
        opening_message(handshake.step(&other)),
        "unexpected CTAPHID command byte in INIT response"
    );
    let mut short = init_reply([7; 8]);
    short[6] = 16;
    assert_eq!(opening_message(handshake.step(&short)), "INIT response too short");
}

#[test]
fn nonces_are_drawn() {
    let first = Handshake::start().request();
    let second = Handshake::start().request();
    assert_ne!(first[8..16], second[8..16]);
}

#[test]
fn short_message_fits_one_frame() {
    let transport = open();
    let (frames, _) = transport.transact(&[0x04]).unwrap();
    assert_eq!(frames.len(), 1);
    assert_eq!(
        frames[0][..9],
        [0, 0x11, 0x22, 0x33, 0x44, 0x90, 0, 1, 0x04]
    );
    assert!(frames[0][9..].iter().all(|byte| *byte == 0));
}

#[test]
fn frame_counts_at_the_edges() {
    let transport = open();
    for (len, count) in [(0, 1), (57, 1), (58, 2), (116, 2), (117, 3), (7609, 129)] {
        let (frames, _) = transport.transact(&vec![1; len]).unwrap();
        assert_eq!(frames.len(), count);
    }
    assert_eq!(
        parse_message(transport.transact(&vec![0; 7610])),
        "payload exceeds CTAPHID wire ceiling (7609 bytes)"
    );
}

#[test]
fn continuation_frames_are_numbered() {
    let transport = open();
    let payload: Vec<u8> = (0..200_u8).collect();
    let (frames, _) = transport.transact(&payload).unwrap();
    assert_eq!(frames.len(), 4);
    assert_eq!(frames[0][6..8], [0, 200]);
    assert_eq!(frames[0][8..65], payload[..57]);
    for (i, frame) in frames[1..].iter().enumerate() {
        assert_eq!(frame[1..5], CID);
        assert_eq!(frame[5] as usize, i);
    }
    assert_eq!(frames[1][6..65], payload[57..116]);
    assert_eq!(frames[3][6..31], payload[175..200]);
    assert!(frames[3][31..].iter().all(|byte| *byte == 0));
}

#[test]
fn frames_reassemble() {
    let transport = open();
    for len in [0_usize, 1, 57, 58, 300, 7609] {
        let payload: Vec<u8> = (0..len).map(|i| (i % 251) as u8).collect();
        let (frames, mut exchange) = transport.vendor_command(0xC1, &payload).unwrap();
        let (last, first) = frames.split_last().unwrap();
        for frame in first {
            exchange = pending(exchange.step(&report(frame)));
        }
        assert_eq!(done(exchange.step(&report(last))).unwrap(), payload);
    }
}

#[test]
fn strays_and_keepalives_do_not_matter() {
    let transport = open();
    let payload = vec![9_u8; 100];
    let (frames, mut exchange) = transport.vendor_command(0xC0, &payload).unwrap();
    let mut stray = report(&frames[0]);
    stray[3] = 0;
    let mut keepalive = [0_u8; 64];
    keepalive[..4].copy_from_slice(&CID);
    keepalive[4] = cmd::CTAPHID_KEEPALIVE;
    keepalive[6] = 1;
    keepalive[7] = 2;
    exchange = pending(exchange.step(&stray));
    exchange = match exchange.step(&keepalive) {
        Step::KeepAlive(KeepAlive::UserPresenceNeeded, exchange) => exchange,
        _ => panic!("keep-alive not passed on"),
    };
    exchange = pending(exchange.step(&report(&frames[0])));
    exchange = pending(exchange.step(&stray));
    assert_eq!(done(exchange.step(&report(&frames[1]))).unwrap(), payload);
}

#[test]
fn status_byte_is_stripped_or_reported() {
    let transport = open();
    let reply = |status: &[u8]| {
        let (frames, _) = transport.transact(status).unwrap();
        let (_, exchange) = transport.transact(&[0x04]).unwrap();
        done(exchange.step(&report(&frames[0])))
    };
    assert_eq!(reply(&[0x00, 0xA1, 0xA2]).unwrap(), [0xA1, 0xA2]);
    assert_eq!(reply(&[0x00]).unwrap(), []);
    assert!(matches!(
        reply(&[0x2E, 0xA0]),
        Err(Error::Ctap(CtapStatus::NoCredentials))
    ));
    assert_eq!(parse_message(reply(&[])), "CBOR response missing status byte");
}

#[test]
fn malformed_replies_end_the_exchange() {
    let transport = open();
    let ask = || transport.transact(&[0x04]).unwrap().1;
    let mut frame = [0_u8; 64];
    frame[..4].copy_from_slice(&CID);

    frame[4] = cmd::CTAPHID_ERROR;
    frame[7] = 0x06;
    assert!(matches!(
        done(ask().step(&frame)),
        Err(Error::Ctap(CtapStatus::ChannelBusy))
    ));

    frame[4] = cmd::CTAPHID_WINK;
    assert_eq!(
        parse_message(done(ask().step(&frame))),
        "unexpected CTAPHID command byte in response"
    );

    frame[4] = cmd::CTAPHID_CBOR;
    frame[6] = 100;
    let mut cont = frame;
    cont[4] = 1;
    let begun = pending(ask().step(&frame));
    assert_eq!(
        parse_message(done(begun.step(&cont))),
        "CTAPHID continuation sequence skew"
    );
    let begun = pending(ask().step(&frame));
    assert_eq!(
        parse_message(done(begun.step(&frame))),
        "expected CTAPHID continuation frame, got init"
    );
}

#[test]
fn vendor_command_needs_bit_seven() {
    let transport = open();
    assert_eq!(
        parse_message(transport.vendor_command(0x53, &[])),
        "vendor_command requires an init-frame command byte (bit 7 set)"
    );
    let (frames, _) = transport.vendor_command(0xD3, &[]).unwrap();
    assert_eq!(frames[0][5..8], [0xD3, 0, 0]);
    assert_eq!(
        parse_message(transport.vendor_command(0xD3, &vec![0; 7610])),
        "payload exceeds CTAPHID wire ceiling (7609 bytes)"
    );
}

#[test]
fn wink_and_cancel() {
    let transport = open();
    let (frames, exchange) = transport.wink();
    assert_eq!(frames.len(), 1);
    assert_eq!(frames[0][5..8], [0x88, 0, 0]);
    assert_eq!(done(exchange.step(&report(&frames[0]))).unwrap(), []);
    let frames = transport.cancel();
    assert_eq!(frames.len(), 1);
    assert_eq!(frames[0][..8], [0, 0x11, 0x22, 0x33, 0x44, 0x91, 0, 0]);
}

fn hid_message(r: Result<(), Error>) -> String {
    match r {
        Ok(()) => "fine".to_string(),
        Err(Error::Hid(message)) => message,
        Err(_) => "another error".to_string(),
    }
}

#[test]
fn lengths_are_judged() {
    assert_eq!(hid_message(hid::check_write(65)), "fine");
    assert_eq!(hid_message(hid::check_write(64)), "short HID write: 64 of 65");
    assert_eq!(hid_message(hid::check_write(0)), "short HID write: 0 of 65");
    assert_eq!(hid_message(hid::check_read(64)), "fine");
    assert_eq!(hid_message(hid::check_read(0)), "HID read timed out");
    assert_eq!(hid_message(hid::check_read(7)), "short HID read: 7 of 64");
}
