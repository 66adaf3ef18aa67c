//! Sessions in memory: the sender's datagrams go straight to the receiver, and its status reports
//! back.

use groovy_cli::connection::{
    after_send, raw_blit, raw_init_packets, GroovyConnection, SendOutcome, SendStep,
};
use groovy_cli::groovy::{
    build_audio, build_blit, build_close, build_init, build_switchres, modelines, push_chunks,
    FpgaStatus, Modeline, DEFAULT_MTU,
};
use groovy_cli::lz4::is_decompressible;
use groovy_cli::mock_server::{MockGroovyServer, MockStats, ProtocolError};
use lz4_flex::compress_prepend_size;

fn mode(name: &str) -> Modeline {
    modelines().into_iter().find(|m| m.name == name).unwrap()
}

fn modeline_320x240() -> Modeline {
    mode("320x240 NTSC")
}

fn modeline_640x480i() -> Modeline {
    mode("640x480i NTSC")
}

fn field_rate(m: &Modeline) -> f64 {
    let rate = f64::from_bits(m.p_clock.bits) * 1_000_000.0 / (m.h_total as f64 * m.v_total as f64);
    if m.interlace {
        rate * 2.0
    } else {
        rate
    }
}

fn field_time_ns(m: &Modeline) -> u64 {
    (1_000_000_000.0 / field_rate(m)) as u64
}

/// A connection whose peer is a receiver in the same process. The program sends the close command
/// when its connection goes away; here `close_and_stop` does so, and then takes the counts.
struct Link {
    conn: GroovyConnection,
    peer: MockGroovyServer,
}

impl Link {
    fn open() -> Link {
        Link { conn: GroovyConnection::connect(), peer: MockGroovyServer::start() }
    }

    fn send(&mut self, datagram: &[u8]) -> Option<Vec<u8>> {
        assert!(self.peer.can_handle(datagram));
        self.peer.handle(datagram)
    }

    fn send_all(&mut self, datagrams: &[Vec<u8>]) {
        for d in datagrams {
            if let Some(report) = self.send(d) {
                self.conn.poll_ack(&report);
            }
        }
    }

    fn init(&mut self, m: &Modeline) {
        let packets = GroovyConnection::init_packets(m);
        let report = self.send(&packets[0]).expect("init is answered");
        assert!(self.conn.wait_ack(&report));
        self.send(&packets[1]);
        self.conn.init(m, field_time_ns(m));
    }

    fn blit(&mut self, frame: &[u8], frame_num: u32, field: u8, vsync: u16) {
        let datagrams = self.conn.blit(frame, frame_num, field, vsync);
        self.send_all(&datagrams);
    }

    fn audio(&mut self, pcm: &[u8]) {
        let datagrams = self.conn.audio(pcm);
        self.send_all(&datagrams);
    }

    fn close(&mut self) {
        let packet = self.conn.close();
        self.send(&packet);
    }

    fn close_and_stop(mut self) -> MockStats {
        self.close();
        self.peer.stop()
    }
}

#[test]
fn closing_at_once_is_counted() {
    let link = Link::open();
    let stats = link.close_and_stop();
    assert_eq!(stats.close_count, 1);
    assert_eq!(stats.init_count, 0);
}

#[test]
fn test_init_sends_init_and_switchres() {
    let mut link = Link::open();
    let m = modeline_320x240();
    link.init(&m);
    assert!(
        link.conn.status.vram_synced || link.conn.status.vram_ready,
        "should have received ACK status"
    );
    let stats = link.close_and_stop();
    assert_eq!(stats.init_count, 1);
    assert_eq!(stats.switchres_count, 1);
    assert_eq!(stats.close_count, 1);
    assert!(!stats.has_errors(), "errors: {:?}", stats.errors);
    let sw = stats.last_switchres.unwrap();
    assert_eq!(sw.h_active, 320);
    assert_eq!(sw.v_active, 240);
    assert!(!sw.interlace);
}

#[test]
fn test_init_sets_timing_fields() {
    let mut link = Link::open();
    let m = modeline_640x480i();
    link.init(&m);
    assert_eq!(link.conn.v_total, m.v_total);
    assert!(link.conn.interlace);
    assert_eq!(link.conn.frame_time_ns, field_time_ns(&m));
    // ~16.6ms per field at 59.94 Hz
    assert!(link.conn.frame_time_ns > 16_000_000 && link.conn.frame_time_ns < 17_000_000);
}

#[test]
fn test_blit_lz4_compressed() {
    let mut link = Link::open();
    let m = modeline_320x240();
    link.init(&m);
    let field_size = m.field_size();
    let frame: Vec<u8> = (0..field_size).map(|i| (i % 256) as u8).collect();
    link.blit(&frame, 1, 0, m.v_begin);
    let stats = link.close_and_stop();
    assert_eq!(stats.blit_count, 1);
    assert_eq!(stats.last_blit_frame, 1);
    assert_eq!(stats.last_blit_field, 0);
    assert!(!stats.has_errors(), "errors: {:?}", stats.errors);
}

#[test]
fn test_blit_multiple_frames() {
    let mut link = Link::open();
    let m = modeline_320x240();
    link.init(&m);
    let frame: Vec<u8> = vec![128u8; m.field_size()];
    let num_frames = 30u32;
    for i in 1..=num_frames {
        link.blit(&frame, i, 0, m.v_begin);
    }
    let stats = link.close_and_stop();
    assert_eq!(stats.blit_count, num_frames);
    assert_eq!(stats.last_blit_frame, num_frames);
    assert!(!stats.has_errors(), "errors: {:?}", stats.errors);
}

#[test]
fn test_blit_interlaced_fields() {
    let mut link = Link::open();
    let m = modeline_640x480i();
    link.init(&m);
    let field_size = m.field_size(); // half height for interlaced
    assert_eq!(field_size, 640 * 240 * 3);
    let frame: Vec<u8> = vec![64u8; field_size];
    // Send even field then odd field
    link.blit(&frame, 1, 0, m.v_begin);
    link.blit(&frame, 2, 1, m.v_begin);
    let stats = link.close_and_stop();
    assert_eq!(stats.blit_count, 2);
    assert_eq!(stats.last_blit_frame, 2);
    assert_eq!(stats.last_blit_field, 1);
    assert!(!stats.has_errors(), "errors: {:?}", stats.errors);
}

#[test]
fn test_audio_send() {
    let mut link = Link::open();
    let m = modeline_320x240();
    link.init(&m);
    let pcm = vec![0x42u8; 4800];
    link.audio(&pcm);
    let stats = link.close_and_stop();
    assert_eq!(stats.audio_count, 1);
    assert_eq!(stats.total_audio_bytes, 4800);
    assert!(!stats.has_errors(), "errors: {:?}", stats.errors);
}

#[test]
fn closing_after_init_is_counted() {
    let mut link = Link::open();
    link.init(&modeline_320x240());
    let stats = link.close_and_stop();
    assert_eq!(stats.close_count, 1);
}

#[test]
fn closing_twice_is_counted_twice() {
    let mut link = Link::open();
    link.init(&modeline_320x240());
    link.close();
    let stats = link.close_and_stop();
    assert_eq!(stats.close_count, 2);
}

#[test]
fn test_full_session() {
    let mut link = Link::open();
    let m = modeline_640x480i();
    link.init(&m);
    let field_size = m.field_size();
    let frame: Vec<u8> = (0..field_size).map(|i| ((i * 7) % 256) as u8).collect();
    // Stream 20 fields (10 interlaced frames)
    for i in 1..=20u32 {
        let field = ((i - 1) % 2) as u8;
        link.blit(&frame, i, field, m.v_begin);
    }
    // Some audio
    let pcm = vec![0x80u8; 3840];
    link.audio(&pcm);
    let stats = link.close_and_stop();
    assert_eq!(stats.init_count, 1);
    assert_eq!(stats.switchres_count, 1);
    assert_eq!(stats.blit_count, 20);
    assert_eq!(stats.audio_count, 1);
    assert_eq!(stats.close_count, 1);
    assert!(!stats.has_errors(), "errors: {:?}", stats.errors);
}

#[test]
fn test_wait_sync_does_not_hang() {
    let mut link = Link::open();
    let m = modeline_320x240();
    link.init(&m);
    // With 0 emulation time the sleep is one field period
    assert!(link.conn.can_wait_sync(0));
    let sleep_ns = link.conn.wait_sync(0);
    assert!(sleep_ns < 50_000_000, "wait_sync took too long: {:?}", sleep_ns);
    assert_eq!(sleep_ns, link.conn.frame_time_ns);
    // With emulation_time >= frame_time there is none
    let late = link.conn.frame_time_ns + 1_000_000;
    assert!(link.conn.can_wait_sync(late));
    let sleep_ns = link.conn.wait_sync(late);
    assert!(sleep_ns < 5_000_000, "should not sleep when ahead: {:?}", sleep_ns);
    assert_eq!(sleep_ns, 0);
}

#[test]
fn test_congestion_control_activates_for_large_frames() {
    let mut link = Link::open();
    let m = modeline_320x240();
    link.init(&m);
    let field_size = m.field_size();
    let random_frame: Vec<u8> =
        (0..field_size).map(|i| ((i.wrapping_mul(2654435761)) & 0xFF) as u8).collect();
    link.blit(&random_frame, 1, 0, m.v_begin);
    link.blit(&random_frame, 2, 0, m.v_begin);
    let stats = link.close_and_stop();
    assert_eq!(stats.blit_count, 2);
    assert!(!stats.has_errors(), "errors: {:?}", stats.errors);
}

#[test]
fn test_mock_init_and_ack() {
    let mut server = MockGroovyServer::start();
    let init = build_init(1, 3, 2, 0);
    let ack = server.handle(&init);
    assert!(ack.is_some(), "should receive ACK");
    let ack = ack.unwrap();
    assert_eq!(ack.len(), 13, "ACK should be 13 bytes");
    let status = FpgaStatus::parse(&ack).unwrap();
    assert!(status.vram_ready);
    assert!(status.vram_synced);
    let stats = server.stop();
    assert_eq!(stats.init_count, 1);
    assert!(!stats.has_errors());
    let init_state = stats.last_init.unwrap();
    assert_eq!(init_state.compression, 1);
    assert_eq!(init_state.sample_rate, 3);
    assert_eq!(init_state.channels, 2);
    assert_eq!(init_state.rgb_mode, 0);
}

#[test]
fn test_mock_switchres() {
    let mut server = MockGroovyServer::start();
    let m = &modelines()[4]; // 720x480i NTSC
    let ack = server.handle(&build_switchres(m));
    assert!(ack.is_some());
    let stats = server.stop();
    assert_eq!(stats.switchres_count, 1);
    assert!(!stats.has_errors());
    let sw = stats.last_switchres.unwrap();
    assert_eq!(sw.h_active, 720);
    assert_eq!(sw.v_active, 480);
    assert!(sw.interlace);
    let difference = f64::from_bits(sw.p_clock.bits) - f64::from_bits(m.p_clock.bits);
    assert!(difference.abs() < 0.001);
}

#[test]
fn test_mock_close() {
    let mut server = MockGroovyServer::start();
    assert!(server.handle(&build_close()).is_none());
    let stats = server.stop();
    assert_eq!(stats.close_count, 1);
    assert!(!stats.has_errors());
}

/// Sends a compressed field by hand: its header, then its payload in chunks.
fn send_field(server: &mut MockGroovyServer, header: &[u8], payload: &[u8]) -> Option<Vec<u8>> {
    let ack = server.handle(header);
    let mut chunks = vec![];
    push_chunks(&mut chunks, payload, DEFAULT_MTU);
    for chunk in &chunks {
        assert!(server.can_handle(chunk));
        assert!(server.handle(chunk).is_none());
    }
    ack
}

#[test]
fn test_mock_blit_compressed_lz4() {
    let mut server = MockGroovyServer::start();
    let m = modeline_320x240();
    server.handle(&build_init(1, 3, 2, 0));
    server.handle(&build_switchres(&m));
    let field_size = m.field_size();
    let frame_data: Vec<u8> = (0..field_size).map(|i| (i % 256) as u8).collect();
    let compressed = compress_prepend_size(&frame_data);
    let header = build_blit(1, 0, m.v_begin, Some(compressed.len() as u32));
    send_field(&mut server, &header, &compressed);
    let stats = server.stop();
    assert_eq!(stats.blit_count, 1);
    assert_eq!(stats.last_blit_frame, 1);
    assert_eq!(stats.last_blit_field, 0);
    assert!(!stats.has_errors(), "errors: {:?}", stats.errors);
}

#[test]
fn test_mock_audio() {
    let mut server = MockGroovyServer::start();
    let pcm = vec![0x42u8; 4800];
    send_field(&mut server, &build_audio(pcm.len() as u16), &pcm);
    let stats = server.stop();
    assert_eq!(stats.audio_count, 1);
    assert_eq!(stats.total_audio_bytes, 4800);
    assert!(!stats.has_errors(), "errors: {:?}", stats.errors);
}

#[test]
fn test_mock_unknown_command() {
    let mut server = MockGroovyServer::start();
    server.handle(&[0xFF, 0x00]);
    let stats = server.stop();
    assert!(stats.has_errors());
    assert!(matches!(stats.errors[0], ProtocolError::UnknownCommand(0xFF)));
}

#[test]
fn test_mock_init_wrong_size() {
    let mut server = MockGroovyServer::start();
    // Init with wrong number of bytes (only 3 instead of 5)
    server.handle(&[0x02, 0x01, 0x03]);
    let stats = server.stop();
    assert!(stats.has_errors());
    assert!(matches!(stats.errors[0], ProtocolError::InitWrongSize(3)));
}

#[test]
fn test_mock_multiple_blits() {
    let mut server = MockGroovyServer::start();
    let m = modeline_320x240();
    server.handle(&build_init(1, 3, 2, 0));
    server.handle(&build_switchres(&m));
    let frame_data: Vec<u8> = vec![128u8; m.field_size()];
    let compressed = compress_prepend_size(&frame_data);
    let num_frames = 10u32;
    for i in 1..=num_frames {
        let header = build_blit(i, 0, m.v_begin, Some(compressed.len() as u32));
        send_field(&mut server, &header, &compressed);
    }
    let stats = server.stop();
    assert_eq!(
        stats.blit_count, num_frames,
        "expected {} blits, got {}", num_frames, stats.blit_count
    );
    assert_eq!(stats.last_blit_frame, num_frames);
    assert!(!stats.has_errors(), "errors: {:?}", stats.errors);
}

#[test]
fn test_mock_full_session() {
    // A complete session: init, switchres, N blits, close
    let mut server = MockGroovyServer::start();
    let m = modeline_640x480i();
    assert!(server.handle(&build_init(1, 3, 2, 0)).is_some());
    assert!(server.handle(&build_switchres(&m)).is_some());
    // Stream 30 frames (0.5s at 60fps)
    let field_size = m.field_size();
    let frame_data: Vec<u8> = (0..field_size).map(|i| ((i * 7) % 256) as u8).collect();
    let compressed = compress_prepend_size(&frame_data);
    for i in 1..=30u32 {
        let field = if m.interlace { (i % 2) as u8 } else { 0 };
        let header = build_blit(i, field, m.v_begin, Some(compressed.len() as u32));
        send_field(&mut server, &header, &compressed);
    }
    server.handle(&build_close());
    let stats = server.stop();
    assert_eq!(stats.init_count, 1);
    assert_eq!(stats.switchres_count, 1);
    assert_eq!(stats.blit_count, 30);
    assert_eq!(stats.close_count, 1);
    assert_eq!(stats.last_blit_frame, 30);
    assert!(!stats.has_errors(), "errors: {:?}", stats.errors);
}

#[test]
fn test_integration_stream_test_pattern_to_mock() {
    let mut server = MockGroovyServer::start();
    let m = modeline_320x240();
    let field_rate = field_rate(&m); // ~60 Hz
    let field_size = m.field_size(); // 320*240*3 = 230400

    // Init
    let ack = server.handle(&build_init(1, 3, 2, 0)).unwrap();
    assert_eq!(ack.len(), 13);

    // Switchres
    server.handle(&build_switchres(&m)).unwrap();

    // Generate test pattern
    let frame_data: Vec<u8> = (0..field_size)
        .map(|i| {
            let x = (i / 3) % m.h_active as usize;
            let y = (i / 3) / m.h_active as usize;
            match i % 3 {
                0 => ((x * 255) / m.h_active as usize) as u8, // B gradient
                1 => ((y * 255) / m.field_height()) as u8,    // G gradient
                _ => 128,                                     // R constant
            }
        })
        .collect();
    let compressed = compress_prepend_size(&frame_data);

    // Stream for ~5 seconds worth of frames
    let target_frames = (field_rate * 5.0) as u32; // ~300 frames
    for i in 1..=target_frames {
        let header = build_blit(i, 0, m.v_begin, Some(compressed.len() as u32));
        send_field(&mut server, &header, &compressed);
    }

    // Close
    server.handle(&build_close());
    let stats = server.stop();

    // Verify protocol correctness
    assert_eq!(stats.init_count, 1, "expected 1 init");
    assert_eq!(stats.switchres_count, 1, "expected 1 switchres");
    assert_eq!(
        stats.blit_count, target_frames,
        "expected {} blits, got {}", target_frames, stats.blit_count
    );
    assert_eq!(stats.close_count, 1, "expected 1 close");
    assert_eq!(stats.last_blit_frame, target_frames);
    assert!(!stats.has_errors(), "protocol errors: {:?}", stats.errors);

    // Verify switchres was parsed correctly
    let sw = stats.last_switchres.unwrap();
    assert_eq!(sw.h_active, 320);
    assert_eq!(sw.v_active, 240);
    assert!(!sw.interlace);

    // Verify init was parsed correctly
    let init = stats.last_init.unwrap();
    assert_eq!(init.compression, 1); // LZ4
}

#[test]
fn blit_sends_header_and_compressed_payload() {
    let mut conn = GroovyConnection::connect();
    let frame: Vec<u8> = (0..10_000u32).map(|i| (i / 7) as u8).collect();
    let datagrams = conn.blit(&frame, 9, 1, 488);
    let payload: Vec<u8> = datagrams[1..].concat();
    assert_eq!(datagrams[0], build_blit(9, 1, 488, Some(payload.len() as u32)));
    assert!(payload.len() < frame.len());
    assert_eq!(lz4_flex::decompress_size_prepended(&payload).unwrap(), frame);
    assert!(datagrams[1..].iter().all(|d| d.len() <= DEFAULT_MTU));
}

#[test]
fn empty_field_still_has_a_payload() {
    let mut link = Link::open();
    link.blit(&[], 1, 0, 0);
    let stats = link.close_and_stop();
    assert_eq!((stats.blit_count, stats.total_blit_bytes), (1, 5));
    assert!(!stats.has_errors());
}

#[test]
fn audio_sends_header_and_payload() {
    let conn = GroovyConnection::connect();
    let pcm: Vec<u8> = (0..3000u32).map(|i| i as u8).collect();
    let datagrams = conn.audio(&pcm);
    assert_eq!(datagrams[0], [0x04, 0xb8, 0x0b]);
    assert_eq!(datagrams.len(), 4);
    assert_eq!(datagrams[1..].concat(), pcm);
}

#[test]
fn audio_size_has_sixteen_bits() {
    let conn = GroovyConnection::connect();
    let datagrams = conn.audio(&vec![0u8; 65536 + 3]);
    assert_eq!(datagrams[0], [0x04, 3, 0]);
}

#[test]
fn congestion_follows_the_compressed_size() {
    let mut conn = GroovyConnection::connect();
    assert_eq!(conn.congestion_delay(0), 0);
    conn.blit_compressed(&vec![0u8; 500_000], 1, 0, 0);
    assert!(!conn.do_congestion);
    assert_eq!(conn.congestion_delay(0), 0);
    conn.blit_compressed(&vec![0u8; 500_001], 2, 0, 0);
    assert!(conn.do_congestion);
    assert_eq!(conn.congestion_delay(0), 110_000);
    assert_eq!(conn.congestion_delay(109_999), 1);
    assert_eq!(conn.congestion_delay(110_000), 0);
    conn.blit_compressed(&[1, 2, 3], 3, 0, 0);
    assert!(!conn.do_congestion);
}

fn report(frame_echo: u32, vcount_echo: u16, frame: u32, vcount: u16, bits: u8) -> Vec<u8> {
    let mut d = frame_echo.to_le_bytes().to_vec();
    d.extend_from_slice(&vcount_echo.to_le_bytes());
    d.extend_from_slice(&frame.to_le_bytes());
    d.extend_from_slice(&vcount.to_le_bytes());
    d.push(bits);
    d
}

#[test]
fn polling_keeps_the_latest_report() {
    let mut conn = GroovyConnection::connect();
    assert!(conn.poll_ack(&report(5, 1, 4, 2, 1)));
    assert!(conn.poll_ack(&report(3, 9, 9, 9, 0)));
    assert_eq!(conn.status.frame_echo, 5);
    assert_eq!(conn.status.vcount, 2);
    assert!(conn.poll_ack(&report(5, 9, 9, 9, 0)));
    assert_eq!(conn.status.vcount_echo, 1);
    assert!(conn.poll_ack(&report(6, 0, 6, 0, 4)));
    assert_eq!(conn.status.frame_echo, 6);
    assert!(!conn.poll_ack(&[0; 12]));
    assert!(!conn.poll_ack(&[0xff; 16]));
    assert_eq!(conn.status.frame_echo, 6);
}

#[test]
fn waiting_takes_any_report() {
    let mut conn = GroovyConnection::connect();
    conn.poll_ack(&report(9, 0, 9, 0, 0));
    assert!(!conn.wait_ack(&[]));
    assert_eq!(conn.status.frame_echo, 9);
    assert!(conn.wait_ack(&report(0, 0, 0, 0, 5)));
    assert_eq!(conn.status.frame_echo, 0);
    assert!(conn.status.vram_ready && conn.status.vram_synced);
}

/// The sleep until the next field, computed in machine integers as a peer would.
fn reference_sleep(c: &GroovyConnection, emulation_time_ns: u64) -> u64 {
    let sleep_ns = c.frame_time_ns.saturating_sub(emulation_time_ns);
    if c.status.frame_echo == 0 {
        return sleep_ns;
    }
    let diff = if c.v_total == 0 {
        0
    } else {
        let shift = if c.interlace { 1 } else { 0 };
        let width = c.frame_time_ns / (c.v_total as u64 >> shift);
        let v1 = (((c.status.frame_echo.wrapping_sub(1)) as u64 * c.v_total as u64
            + c.status.vcount_echo as u64)
            >> shift) as i64;
        let v2 = ((c.status.frame as u64 * c.v_total as u64 + c.status.vcount as u64) >> shift)
            as i64;
        (width as i64) * ((v1 - v2) / 2)
    };
    if diff < 0 && (-diff as u64) > sleep_ns {
        0
    } else {
        (sleep_ns as i64 + diff) as u64
    }
}

#[test]
fn sync_follows_the_raster() {
    for interlace in [false, true] {
        for (v_total, time) in [(0u16, 16_000_000u64), (262, 16_683_350), (525, 16_683_350), (3, 7)] {
            for (echo, vecho, frame, vcount) in [
                (0u32, 0u16, 0u32, 0u16),
                (1, 0, 0, 0),
                (10, 100, 9, 50),
                (10, 0, 9, 200),
                (10, 0, 11, 0),
                (12, 3, 8, 1),
                (9, 0, 8, 1),
                (9, 0, 8, 3),
            ] {
                for spent in [0u64, 1, 8_000_000, 16_683_350, 20_000_000] {
                    let mut c = GroovyConnection::connect();
                    c.poll_ack(&report(echo, vecho, frame, vcount, 0));
                    c.frame_time_ns = time;
                    c.v_total = v_total;
                    c.interlace = interlace;
                    assert!(c.can_wait_sync(spent));
                    assert_eq!(c.wait_sync(spent), reference_sleep(&c, spent));
                }
            }
        }
    }
}

#[test]
fn sync_that_does_not_fit_is_recognised() {
    let mut c = GroovyConnection::connect();
    c.poll_ack(&report(u32::MAX, 0, 0, 0, 0));
    c.frame_time_ns = u64::MAX / 4;
    c.v_total = 1;
    assert!(!c.can_wait_sync(0));
    c.interlace = true;
    assert!(!c.can_wait_sync(0));
    c.v_total = 262;
    c.frame_time_ns = 16_000_000;
    assert!(c.can_wait_sync(0));
}

#[test]
fn sending_is_tried_again() {
    assert_eq!(after_send(SendOutcome::Sent), SendStep::Done);
    assert_eq!(after_send(SendOutcome::WouldBlock), SendStep::Again { pause_us: 10 });
    assert_eq!(after_send(SendOutcome::BufferFull), SendStep::Again { pause_us: 100 });
    assert_eq!(after_send(SendOutcome::Failed), SendStep::GiveUp);
}

#[test]
fn first_other_outcome_decides() {
    for last in [SendOutcome::Sent, SendOutcome::Failed] {
        let outcomes =
            [SendOutcome::WouldBlock, SendOutcome::BufferFull, SendOutcome::BufferFull, last, last];
        let mut offers = 0;
        let sent = loop {
            offers += 1;
            match after_send(outcomes[offers - 1]) {
                SendStep::Done => break true,
                SendStep::GiveUp => break false,
                SendStep::Again { pause_us } => assert!(pause_us > 0),
            }
        };
        assert_eq!((offers, sent), (4, last == SendOutcome::Sent));
    }
}

#[test]
fn any_cut_of_a_payload_is_taken() {
    let frame: Vec<u8> = (0..5000u32).map(|i| (i * i) as u8).collect();
    let compressed = compress_prepend_size(&frame);
    let mut server = MockGroovyServer::start();
    server.handle(&build_init(1, 3, 2, 0));
    server.handle(&build_switchres(&modeline_640x480i()));
    let n = 12u32;
    for i in 1..=n {
        let header = build_blit(i, (i % 2) as u8, 488, Some(compressed.len() as u32));
        assert!(server.can_handle(&header));
        server.handle(&header);
        let (mut off, mut size) = (0, i as usize);
        while off < compressed.len() {
            let end = (off + size).min(compressed.len());
            assert!(server.can_handle(&compressed[off..end]));
            server.handle(&compressed[off..end]);
            off = end;
            size = size * 3 % 701 + 1;
        }
        // Sound between the fields
        for d in [build_audio(3), vec![1], vec![2, 3]] {
            server.handle(&d);
        }
    }
    server.handle(&build_close());
    let stats = server.stop();
    assert_eq!((stats.init_count, stats.switchres_count, stats.close_count), (1, 1, 1));
    assert_eq!((stats.blit_count, stats.audio_count), (n, n));
    assert_eq!((stats.last_blit_frame, stats.last_blit_field), (n, 0));
    assert_eq!(stats.total_blit_bytes, n as u64 * compressed.len() as u64);
    assert_eq!(stats.total_audio_bytes, 3 * n as u64);
    assert!(!stats.has_errors(), "errors: {:?}", stats.errors);
    let (sw, m) = (stats.last_switchres.unwrap(), modeline_640x480i());
    assert_eq!(sw.p_clock, m.p_clock);
    assert_eq!(
        [sw.h_active, sw.h_begin, sw.h_end, sw.h_total],
        [m.h_active, m.h_begin, m.h_end, m.h_total]
    );
    assert_eq!(
        [sw.v_active, sw.v_begin, sw.v_end, sw.v_total],
        [m.v_active, m.v_begin, m.v_end, m.v_total]
    );
    assert!(sw.interlace);
}

#[test]
fn raw_session_packets() {
    let m = modeline_320x240();
    assert_eq!(raw_init_packets(&m, true), [build_init(0, 3, 2, 0), build_switchres(&m)]);
    assert_eq!(raw_init_packets(&m, false), [build_init(0, 0, 0, 0), build_switchres(&m)]);
    let frame: Vec<u8> = (0..4000u32).map(|i| i as u8).collect();
    let datagrams = raw_blit(&frame, 3, 1, 7, DEFAULT_MTU);
    assert_eq!(datagrams[0], [0x07, 3, 0, 0, 0, 1, 7, 0]);
    assert_eq!(datagrams.len(), 4);
    assert_eq!(datagrams[1..].concat(), frame);
}

#[test]
fn raw_field_is_collected_by_the_mode() {
    let mut server = MockGroovyServer::start();
    let m = modeline_640x480i();
    server.handle(&build_switchres(&m));
    let frame = vec![0u8; m.field_size()];
    let datagrams = raw_blit(&frame, 1, 1, m.v_begin, DEFAULT_MTU);
    let last = datagrams.len() - 1;
    for d in &datagrams[..last] {
        assert!(server.can_handle(d));
        server.handle(d);
    }
    assert_eq!(server.stats().blit_count, 0);
    server.handle(&datagrams[last]);
    let stats = server.stop();
    assert_eq!((stats.blit_count, stats.last_blit_field), (1, 1));
    assert_eq!(stats.total_blit_bytes, m.field_size() as u64);
    // Zeros announce no bytes and hold an empty run, so that they are taken for a block.
    assert_eq!(
        stats.has_errors(),
        lz4_flex::decompress_size_prepended(&frame).is_err()
    );
}

#[test]
fn raw_field_without_a_mode_is_counted_at_once() {
    let mut server = MockGroovyServer::start();
    let ack = server.handle(&build_blit(7, 1, 0, None)).unwrap();
    assert_eq!(FpgaStatus::parse(&ack).unwrap().frame_echo, 7);
    let stats = server.stop();
    assert_eq!((stats.blit_count, stats.last_blit_frame, stats.last_blit_field), (1, 7, 1));
    assert_eq!(stats.total_blit_bytes, 0);
}

#[test]
fn wrong_sizes_are_recorded() {
    let mut server = MockGroovyServer::start();
    assert!(server.handle(&[]).is_none());
    assert!(server.handle(&[0x03, 1, 2]).is_some());
    assert!(server.handle(&[0x07, 1, 2]).is_none());
    assert!(server.handle(&[0x04, 1]).is_none());
    let stats = server.stats();
    assert!(matches!(stats.errors[0], ProtocolError::SwitchresWrongSize(3)));
    assert!(matches!(stats.errors[1], ProtocolError::BlitHeaderWrongSize(3)));
    assert!(matches!(stats.errors[2], ProtocolError::AudioHeaderWrongSize(2)));
    assert_eq!(stats.errors.len(), 3);
    assert_eq!(server.stop().errors.len(), 3);
}

#[test]
fn broken_payload_is_recorded() {
    let mut server = MockGroovyServer::start();
    let payload = [4u8, 0, 0, 0, 0x40];
    let mut datagram = build_blit(1, 0, 0, Some(payload.len() as u32));
    datagram.extend_from_slice(&payload);
    assert!(server.can_handle(&datagram));
    server.handle(&datagram);
    let expected = lz4_flex::decompress_size_prepended(&payload).err().unwrap().to_string();
    let stats = server.stop();
    assert_eq!(stats.blit_count, 1);
    match &stats.errors[0] {
        ProtocolError::Lz4DecompressFailed(text) => assert_eq!(*text, expected),
        other => panic!("{:?}", other),
    }
}

#[test]
fn empty_announcement_is_recorded() {
    let mut server = MockGroovyServer::start();
    server.handle(&build_blit(1, 0, 0, Some(0)));
    let stats = server.stop();
    assert!(matches!(
        &stats.errors[0],
        ProtocolError::Lz4DecompressFailed(text) if text == "expected another byte, found none"
    ));
}

#[test]
fn payload_beyond_the_announced_size_is_counted_but_not_read() {
    let mut server = MockGroovyServer::start();
    let payload = compress_prepend_size(b"hello hello hello hello hello");
    let mut datagram = build_blit(2, 0, 0, Some(payload.len() as u32));
    datagram.extend_from_slice(&payload);
    datagram.extend_from_slice(b"trailing");
    server.handle(&datagram);
    server.handle(&[0x04, 2, 0, 9, 9, 9]);
    let stats = server.stop();
    assert_eq!(stats.total_blit_bytes, payload.len() as u64 + 8);
    assert_eq!((stats.audio_count, stats.total_audio_bytes), (1, 2));
    assert!(!stats.has_errors());
}

#[test]
fn status_request_reports_the_last_field() {
    let mut server = MockGroovyServer::start();
    server.handle(&build_blit(31, 0, 0, None));
    let status = FpgaStatus::parse(&server.handle(&[0x05]).unwrap()).unwrap();
    assert_eq!((status.frame_echo, status.frame, status.vcount), (31, 31, 50));
    assert!(status.vram_ready && status.vram_synced && !status.vram_end_frame);
    assert_eq!(server.stop().status_request_count, 1);
}

#[test]
fn lengths_beyond_the_machine_are_recognised() {
    assert!(is_decompressible(&vec![0u8; 20_000_000]));
    let mut data = vec![255u8; 16_843_008];
    assert!(!is_decompressible(&data) || usize::BITS > 32);
    data.push(0);
    data.extend_from_slice(&[255; 5]);
    assert!(is_decompressible(&data) || usize::BITS == 32);
    data.extend_from_slice(&vec![255u8; 16_843_004]);
    assert!(!is_decompressible(&data));
}

#[test]
fn field_that_cannot_be_looked_into_is_recognised() {
    let mut server = MockGroovyServer::start();
    let header = build_blit(1, 0, 0, Some(20_000_000));
    assert!(server.can_handle(&header));
    server.handle(&header);
    let chunk = vec![255u8; 19_999_999];
    assert!(server.can_handle(&chunk));
    server.handle(&chunk);
    assert!(!server.can_handle(&[0]));
}
