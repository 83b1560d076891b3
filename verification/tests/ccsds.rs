//! CCSDS packets on the wire.

use besom::ccsds::{build_command, PacketError, TlmPacket, EVS_EVENT_MID};

#[test]
fn command_header_matches_the_wire() {
    // The TO_LAB "enable output" command. cmdUtil puts this on the wire:
    //   18 80 c0 00 00 11 06 b0  31 32 37 2e 30 2e 30 2e 31 00 ...
    // Everything but the checksum byte must match it exactly.
    let mut ip = [0u8; 16];
    ip[..9].copy_from_slice(b"127.0.0.1");

    let pkt = build_command(0x1880, 6, &ip);

    assert_eq!(&pkt[..6], &[0x18, 0x80, 0xC0, 0x00, 0x00, 0x11], "primary header");
    assert_eq!(pkt[6], 6, "function code");
    assert_eq!(&pkt[8..17], b"127.0.0.1", "payload");
    assert_eq!(pkt.len(), 24);
    assert_eq!(pkt.iter().fold(0u8, |a, b| a ^ b), 0xFF, "CFE_MSG_ComputeCheckSum invariant");
}

#[test]
fn parses_a_telemetry_packet() {
    let mut buf = vec![0u8; 24];
    buf[0..2].copy_from_slice(&0x0883u16.to_be_bytes()); // SAMPLE_APP HK
    buf[2..4].copy_from_slice(&0xC005u16.to_be_bytes()); // seq 5, flags set
    buf[6..10].copy_from_slice(&7u32.to_be_bytes());
    buf[10..12].copy_from_slice(&32768u16.to_be_bytes()); // half a second

    let p = TlmPacket::parse(&buf).unwrap();

    assert_eq!(p.msg_id, 0x0883);
    assert_eq!(p.seq, 5, "sequence flags must be masked off");
    assert_eq!(p.time_secs() as f64 / 65536.0, 7.5);
}

#[test]
fn rejects_a_runt() {
    assert!(TlmPacket::parse(&[0u8; 8]).is_err());
}

#[test]
fn a_runt_says_how_short_it_is() {
    let e = TlmPacket::parse(&[0u8; 11]).unwrap_err();
    assert_eq!(e, PacketError::Short { len: 11 });
    assert_eq!(e.message(), "short packet: 11 bytes");
    assert_eq!(TlmPacket::parse(&[]).unwrap_err().message(), "short packet: 0 bytes");
}

#[test]
fn a_header_alone_is_a_packet() {
    let p = TlmPacket::parse(&[0x08, 0x08, 0xFF, 0xFF, 0, 5, 1, 2, 3, 4, 5, 6]).unwrap();
    assert_eq!(p.msg_id, EVS_EVENT_MID);
    assert_eq!(p.seq, 0x3FFF);
    assert_eq!(p.secs, 0x0102_0304);
    assert_eq!(p.subsecs, 0x0506);
    assert_eq!(p.len, 12);
    assert!(p.payload.is_empty());
}

#[test]
fn the_contents_follow_the_header() {
    let buf: Vec<u8> = (0..20).collect();
    let p = TlmPacket::parse(&buf).unwrap();
    assert_eq!(p.payload, vec![12, 13, 14, 15, 16, 17, 18, 19]);
    assert_eq!(p.len, 20);
}

#[test]
fn a_command_without_a_payload() {
    let pkt = build_command(0x1882, 0, &[]);
    assert_eq!(pkt, vec![0x18, 0x82, 0xC0, 0x00, 0x00, 0x01, 0x00, 0xA4]);
}

#[test]
fn every_checksum_satisfies_the_rule() {
    for n in 0..40u8 {
        let payload: Vec<u8> = (0..n).map(|i| i.wrapping_mul(37).wrapping_add(n)).collect();
        let pkt = build_command(0x1800 + u16::from(n), n, &payload);
        assert_eq!(pkt.iter().fold(0u8, |a, b| a ^ b), 0xFF);
        assert_eq!(usize::from(pkt[5]), payload.len() + 1);
        assert_eq!(&pkt[8..], &payload[..]);
    }
}
