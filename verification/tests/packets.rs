use groovy_cli::groovy::{
    build_audio, build_blit, build_blit_field_vsync, build_close, build_init, build_switchres,
    modelines, push_chunks, FpgaStatus, Modeline, DEFAULT_MTU, UDP_PORT,
};

fn mode(name: &str) -> Modeline {
    modelines().into_iter().find(|m| m.name == name).unwrap()
}

#[test]
fn constants() {
    assert_eq!(UDP_PORT, 32100);
    assert_eq!(DEFAULT_MTU, 1472);
}

#[test]
fn presets_hold_their_clocks() {
    let clocks: Vec<f64> = modelines().iter().map(|m| f64::from_bits(m.p_clock.bits)).collect();
    assert_eq!(
        clocks,
        [4.905, 6.7, 6.7, 12.336, 13.846, 5.32, 6.66, 6.66, 13.32, 13.875]
    );
    let names: Vec<&str> = modelines().iter().map(|m| m.name).collect();
    assert_eq!(
        names,
        [
            "256x240 NTSC", "320x240 NTSC", "320x480i NTSC", "640x480i NTSC", "720x480i NTSC",
            "256x240 PAL", "320x240 PAL", "320x480i PAL", "640x480i PAL", "720x576i PAL",
        ]
    );
}

#[test]
fn presets_hold_their_timings() {
    let m = mode("720x576i PAL");
    assert_eq!([m.h_active, m.h_begin, m.h_end, m.h_total], [720, 741, 806, 888]);
    assert_eq!([m.v_active, m.v_begin, m.v_end, m.v_total], [576, 581, 586, 625]);
    assert!(m.interlace);
    let m = mode("256x240 NTSC");
    assert_eq!([m.h_active, m.h_begin, m.h_end, m.h_total], [256, 264, 287, 312]);
    assert_eq!([m.v_active, m.v_begin, m.v_end, m.v_total], [240, 241, 244, 262]);
    assert!(!m.interlace);
}

#[test]
fn field_sizes() {
    assert_eq!(mode("640x480i NTSC").field_height(), 240);
    assert_eq!(mode("640x480i NTSC").field_size(), 640 * 240 * 3);
    assert_eq!(mode("320x240 NTSC").field_height(), 240);
    assert_eq!(mode("320x240 NTSC").field_size(), 230400);
}

#[test]
fn init_packet_bytes() {
    assert_eq!(build_init(1, 3, 2, 0), [0x02, 1, 3, 2, 0]);
}

#[test]
fn switchres_packet_bytes() {
    let m = mode("640x480i NTSC");
    let mut expected = vec![0x03];
    expected.extend_from_slice(&12.336f64.to_le_bytes());
    for n in [640u16, 662, 720, 784, 480, 488, 494, 525] {
        expected.extend_from_slice(&n.to_le_bytes());
    }
    expected.push(1);
    assert_eq!(build_switchres(&m), expected);
    assert_eq!(expected.len(), 26);
    assert_eq!(build_switchres(&mode("320x240 PAL"))[25], 0);
}

#[test]
fn blit_packet_bytes() {
    assert_eq!(
        build_blit_field_vsync(0x01020304, 1, 0x0506, None),
        [0x07, 4, 3, 2, 1, 1, 6, 5]
    );
    assert_eq!(
        build_blit(0x01020304, 1, 0x0506, Some(0x0708090a)),
        [0x07, 4, 3, 2, 1, 1, 6, 5, 0x0a, 9, 8, 7]
    );
}

#[test]
fn audio_and_close_packet_bytes() {
    assert_eq!(build_audio(0x1234), [0x04, 0x34, 0x12]);
    assert_eq!(build_close(), [0x01]);
}

#[test]
fn status_needs_thirteen_bytes() {
    assert!(FpgaStatus::parse(&[0; 12]).is_none());
    assert_eq!(FpgaStatus::parse(&[0; 13]), Some(FpgaStatus::default()));
    assert_eq!(FpgaStatus::parse(&[0; 16]), Some(FpgaStatus::default()));
}

#[test]
fn status_fields_and_flags() {
    let report = [4, 3, 2, 1, 6, 5, 10, 9, 8, 7, 12, 11, 0b0001_0101];
    let status = FpgaStatus::parse(&report).unwrap();
    assert_eq!(status.frame_echo, 0x01020304);
    assert_eq!(status.vcount_echo, 0x0506);
    assert_eq!(status.frame, 0x0708090a);
    assert_eq!(status.vcount, 0x0b0c);
    assert!(status.vram_ready);
    assert!(!status.vram_end_frame);
    assert!(status.vram_synced);
    assert!(status.vga_vblank);
    let status = FpgaStatus::parse(&[0, 0, 0, 0, 0, 0, 0, 0, 0, 0, 0, 0, 0b1110_1010]).unwrap();
    assert!(!status.vram_ready);
    assert!(status.vram_end_frame);
    assert!(!status.vram_synced);
    assert!(!status.vga_vblank);
}

#[test]
fn chunks_hold_the_payload() {
    for len in [0usize, 1, 9, 10, 11, 20, 25] {
        let data: Vec<u8> = (0..len).map(|i| i as u8).collect();
        let mut out = vec![vec![0xff]];
        push_chunks(&mut out, &data, 10);
        assert_eq!(out[0], [0xff]);
        assert_eq!(out.len() - 1, (len + 9) / 10);
        assert_eq!(out[1..].concat(), data);
        assert!(out[1..].iter().all(|c| !c.is_empty() && c.len() <= 10));
    }
}
