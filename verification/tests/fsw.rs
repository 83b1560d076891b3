//! The state link to the flight software.

use besom::fsw::{
    add_packet_command, encode_state, FswState, VehicleState, STATE_PORT, STATE_TLM_MID,
    TO_LAB_ADD_PKT_CC,
};

/// An ISS-like vehicle at its ascending node: 420 km up, inclined by 51.6 degrees.
struct Flying {
    pos: [f64; 3],
    vel: [f64; 3],
    roll: f64,
}

impl Flying {
    fn iss() -> Self {
        let r = 6378.137 + 420.0;
        let v = (398_600.4418f64 / r).sqrt();
        let i = 51.6f64.to_radians();
        Flying { pos: [r, 0.0, 0.0], vel: [0.0, v * i.cos(), v * i.sin()], roll: 0.0 }
    }

    fn radius(&self) -> f64 {
        self.pos.iter().map(|x| x * x).sum::<f64>().sqrt()
    }

    fn altitude_km(&self) -> f64 {
        self.radius() - 6378.137
    }

    fn subpoint_deg(&self) -> (f64, f64) {
        let lat = (self.pos[2] / self.radius()).asin().to_degrees();
        let lon = self.pos[1].atan2(self.pos[0]).to_degrees();
        (lat, lon)
    }

    fn state(&self) -> VehicleState {
        let (lat, lon) = self.subpoint_deg();
        VehicleState {
            pos_x: self.pos[0].to_bits(),
            pos_y: self.pos[1].to_bits(),
            pos_z: self.pos[2].to_bits(),
            vel_x: self.vel[0].to_bits(),
            vel_y: self.vel[1].to_bits(),
            vel_z: self.vel[2].to_bits(),
            alt_km: self.altitude_km().to_bits(),
            lat_deg: lat.to_bits(),
            lon_deg: lon.to_bits(),
            roll: self.roll.to_bits(),
        }
    }
}

#[test]
fn state_round_trips_through_the_wire_format() {
    // The C side reads these bytes as a packed struct of f64. If the encoder
    // and the decoder ever disagree the loop silently reports garbage, so
    // pin the layout from both ends.
    let v = Flying::iss();
    let bytes = encode_state(&v.state());
    assert_eq!(bytes.len(), 80, "ten f64");

    // Rebuild a telemetry packet the way besom_io publishes it.
    let mut pkt = vec![0u8; 16];
    pkt.extend_from_slice(&bytes);
    pkt.extend_from_slice(&7u32.to_le_bytes()); // RxCount
    pkt.extend_from_slice(&0u32.to_le_bytes()); // RxErrCount

    let s = FswState::parse(STATE_TLM_MID, &pkt).unwrap();

    let (lat, lon) = v.subpoint_deg();
    assert!((f64::from_bits(s.alt_km) - v.altitude_km()).abs() < 1e-9);
    assert!((f64::from_bits(s.lat_deg) - lat).abs() < 1e-9);
    assert!((f64::from_bits(s.lon_deg) - lon).abs() < 1e-9);
    assert_eq!(s.rx_count, 7);
}

#[test]
fn ignores_other_telemetry() {
    assert!(FswState::parse(0x0883, &[0u8; 200]).is_none());
}

#[test]
fn add_packet_targets_to_lab() {
    let cmd = add_packet_command(STATE_TLM_MID);
    assert_eq!(&cmd[..2], &0x1880u16.to_be_bytes(), "TO_LAB command MID");
    assert_eq!(cmd[6], TO_LAB_ADD_PKT_CC);
    assert_eq!(
        u32::from_le_bytes(cmd[8..12].try_into().unwrap()),
        u32::from(STATE_TLM_MID)
    );
}

#[test]
fn the_subscription_asks_for_four_buffers() {
    let cmd = add_packet_command(0x0883);
    assert_eq!(cmd.len(), 16);
    assert_eq!(&cmd[2..7], &[0xC0, 0x00, 0x00, 0x09, 2]);
    assert_eq!(&cmd[8..], &[0x83, 0x08, 0, 0, 0, 0, 4, 0]);
    assert_eq!(STATE_PORT, 5010);
}

#[test]
fn the_state_is_ten_doubles_in_order() {
    let v = VehicleState {
        pos_x: 1.0f64.to_bits(),
        pos_y: 2.0f64.to_bits(),
        pos_z: 3.0f64.to_bits(),
        vel_x: 4.0f64.to_bits(),
        vel_y: 5.0f64.to_bits(),
        vel_z: 6.0f64.to_bits(),
        alt_km: 7.0f64.to_bits(),
        lat_deg: 8.0f64.to_bits(),
        lon_deg: 9.0f64.to_bits(),
        roll: (-10.5f64).to_bits(),
    };
    let mut expected = Vec::new();
    for x in [1.0f64, 2.0, 3.0, 4.0, 5.0, 6.0, 7.0, 8.0, 9.0, -10.5] {
        expected.extend_from_slice(&x.to_le_bytes());
    }
    assert_eq!(encode_state(&v), expected);
}

#[test]
fn a_state_packet_has_a_hundred_and_four_bytes() {
    assert!(FswState::parse(STATE_TLM_MID, &[0u8; 103]).is_none());
    let mut buf = [0u8; 104];
    buf[64..72].copy_from_slice(&419.5f64.to_le_bytes());
    buf[72..80].copy_from_slice(&(-12.25f64).to_le_bytes());
    buf[80..88].copy_from_slice(&170.0f64.to_le_bytes());
    buf[88..96].copy_from_slice(&0.5f64.to_le_bytes());
    buf[96..100].copy_from_slice(&1000u32.to_le_bytes());
    buf[100..104].copy_from_slice(&3u32.to_le_bytes());
    let s = FswState::parse(STATE_TLM_MID, &buf).unwrap();
    assert_eq!(f64::from_bits(s.alt_km), 419.5);
    assert_eq!(f64::from_bits(s.lat_deg), -12.25);
    assert_eq!(f64::from_bits(s.lon_deg), 170.0);
    assert_eq!(f64::from_bits(s.roll), 0.5);
    assert_eq!(s.rx_count, 1000);
    assert_eq!(s.rx_err_count, 3);
}

#[test]
fn nothing_reported_is_all_zero() {
    let s = FswState::default();
    assert_eq!(f64::from_bits(s.alt_km), 0.0);
    assert_eq!((s.lat_deg, s.lon_deg, s.roll, s.rx_count, s.rx_err_count), (0, 0, 0, 0, 0));
}

#[test]
fn states_compare_as_doubles_do() {
    let with = |alt: f64| FswState { alt_km: alt.to_bits(), ..FswState::default() };
    for a in [0.0, -0.0, 1.5, -1.5, f64::NAN, -f64::NAN, f64::INFINITY, f64::NEG_INFINITY, 5e-324] {
        for b in [0.0, -0.0, 1.5, -1.5, f64::NAN, f64::INFINITY, f64::NEG_INFINITY, -5e-324] {
            assert_eq!(with(a) == with(b), a == b, "{a} and {b}");
        }
    }
    let base = FswState::default();
    assert_eq!(base, FswState { roll: (-0.0f64).to_bits(), lat_deg: (-0.0f64).to_bits(), ..base });
    assert_ne!(base, FswState { lon_deg: 1, ..base });
    assert_ne!(base, FswState { rx_count: 1, ..base });
    assert_ne!(base, FswState { rx_err_count: 1, ..base });
}
