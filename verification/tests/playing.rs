use groovy_cli::connection::GroovyConnection;
use groovy_cli::double::Double;
use groovy_cli::ffmpeg::{
    build_audio_args, build_video_args, extract_subs, find_ffmpeg, places, FfmpegNotFound,
    FrameAssembler, Seek, VideoParams,
};
use groovy_cli::groovy::{build_blit, modelines, Modeline};
use groovy_cli::mock_server::MockGroovyServer;
use groovy_cli::plex::{MediaInfo, PlexClient};
use groovy_cli::streamer::{
    extract_file_subs, extract_plex_subs, file_audio_map, file_params, pick_field, plex_audio_map,
    plex_params, start_position, AudioSync, FieldCounter, FinalReport, Pacer, PlexProgress, Stream,
    StreamStep, Turn,
};

fn double(x: f64) -> Double {
    Double { bits: x.to_bits() }
}

#[test]
fn test_extract_plex_subs_none() {
    let source = extract_plex_subs(None, None);
    assert!(source.is_none());
}

#[test]
fn test_extract_file_subs_disabled_none() {
    let source = extract_file_subs(Some("none"));
    assert!(source.is_none());
}

#[test]
fn test_extract_file_subs_disabled_off() {
    let source = extract_file_subs(Some("off"));
    assert!(source.is_none());
}

#[test]
fn test_extract_file_subs_non_numeric() {
    // Non-numeric, non-"none" string: no subs
    let source = extract_file_subs(Some("english"));
    assert!(source.is_none());
}

#[test]
fn plex_subtitle_streams() {
    for (codec, extension) in
        [(Some("ass"), "ass"), (Some("ssa"), "ass"), (Some("pgs"), "srt"), (None, "srt")]
    {
        let s = extract_plex_subs(Some(12), codec).unwrap();
        assert_eq!((s.map.as_str(), s.extension.as_str()), ("0:12", extension));
    }
}

#[test]
fn file_subtitle_tracks() {
    let s = extract_file_subs(None).unwrap();
    assert_eq!((s.map.as_str(), s.extension.as_str()), ("0:s:0", "ass"));
    assert_eq!(extract_file_subs(Some("3")).unwrap().map, "0:s:3");
    assert_eq!(extract_file_subs(Some("+3")).unwrap().map, "0:s:3");
    assert_eq!(extract_file_subs(Some("4294967295")).unwrap().map, "0:s:4294967295");
    for none in ["4294967296", "", "-1", "NONE", "None", " 3"] {
        assert!(extract_file_subs(Some(none)).is_none(), "{}", none);
    }
}

#[test]
fn audio_maps() {
    assert_eq!(plex_audio_map(Some(4)), "0:4");
    assert_eq!(plex_audio_map(None), "0:a:0");
    assert_eq!(file_audio_map(Some(2)), "0:a:2");
    assert_eq!(file_audio_map(None), "0:a:0");
}

fn params(scale: f64, sub: Option<&str>, seek: f64) -> VideoParams {
    VideoParams {
        url: "http://u".into(),
        seek: Seek::Secs(double(seek)),
        sub_path: sub.map(|s| s.into()),
        audio_map: "0:a:0".into(),
        w: 640,
        ffmpeg_h: 240,
        ffmpeg_fps: double(59.94),
        scale: double(scale),
    }
}

const TAIL: [&str; 12] = [
    "-f", "rawvideo", "-pix_fmt", "bgr24", "-r", "59.9400", "-vsync", "cfr", "-v", "error",
    "-nostdin", "pipe:1",
];

#[test]
fn video_arguments_full_size() {
    let mut expected = vec!["-re", "-i", "http://u", "-map", "0:v:0", "-s", "640x240"];
    expected.extend(TAIL);
    assert_eq!(build_video_args(&params(1.0, None, 0.0)), expected);
    assert_eq!(build_video_args(&params(1.0, None, -3.0)), expected);
}

#[test]
fn video_arguments_scaled() {
    let mut expected = vec![
        "-re", "-ss", "12.500", "-i", "http://u", "-filter_complex",
        "[0:v:0]scale=576:216[v];[v]pad=640:240:32:12:black[out]", "-map", "[out]",
    ];
    expected.extend(TAIL);
    assert_eq!(build_video_args(&params(0.9, None, 12.5)), expected);
}

#[test]
fn video_arguments_with_subtitles() {
    let mut expected = vec![
        "-re", "-i", "http://u", "-filter_complex",
        "[0:v:0]scale=544:204[v];[v]subtitles=filename=/tmp/s.ass:original_size=544x204[s];\
         [s]pad=640:240:48:18:black[out]",
        "-map", "[out]",
    ];
    expected.extend(TAIL);
    assert_eq!(build_video_args(&params(0.85, Some("/tmp/s.ass"), 0.0)), expected);
}

#[test]
fn video_arguments_with_subtitles_at_full_size() {
    let args = build_video_args(&params(1.0, Some("s"), 0.0));
    assert_eq!(
        args[4],
        "[0:v:0]scale=640:240[v];[v]subtitles=filename=s:original_size=640x240[s];\
         [s]pad=640:240:0:0:black[out]"
    );
}

#[test]
fn audio_arguments() {
    assert_eq!(
        build_audio_args("u", "0:1", Seek::Secs(double(0.25))),
        [
            "-re", "-ss", "0.250", "-i", "u", "-map", "0:1", "-ac", "2", "-ar", "48000", "-f",
            "s16le", "-acodec", "pcm_s16le", "-v", "warning", "-nostdin", "pipe:1",
        ]
    );
    assert_eq!(build_audio_args("u", "0:1", Seek::Secs(double(0.0)))[1], "-i");
}

#[test]
fn subtitle_arguments() {
    assert_eq!(
        extract_subs("u", "0:s:0", Seek::Secs(double(1.0)), "/tmp/x.ass"),
        ["-ss", "1.000", "-i", "u", "-map", "0:s:0", "-y", "-v", "error", "/tmp/x.ass"]
    );
    assert_eq!(extract_subs("u", "0:s:0", Seek::Secs(double(f64::NAN)), "/tmp/x.ass")[0], "-i");
}

#[test]
fn ffmpeg_is_looked_for() {
    assert_eq!(
        places(),
        ["/opt/homebrew/bin/ffmpeg", "/usr/local/bin/ffmpeg", "/usr/bin/ffmpeg"]
    );
    let all = vec![true, true, true];
    let none = vec![false, false, false];
    assert_eq!(find_ffmpeg(Some(b" \t/x/ffmpeg\r\n"), &none).unwrap(), "/x/ffmpeg");
    assert_eq!(find_ffmpeg(Some("\u{a0}/x\u{2003}".as_bytes()), &none).unwrap(), "/x");
    assert_eq!(find_ffmpeg(Some(b"\n"), &all).unwrap(), "/opt/homebrew/bin/ffmpeg");
    assert_eq!(find_ffmpeg(None, &vec![false, true, true]).unwrap(), "/usr/local/bin/ffmpeg");
    assert_eq!(find_ffmpeg(None, &vec![false, false, true]).unwrap(), "/usr/bin/ffmpeg");
    let error = find_ffmpeg(Some(b""), &none).err().unwrap();
    assert_eq!(error, FfmpegNotFound);
    assert_eq!(error.message(), "FFmpeg not found. Install with: brew install ffmpeg");
}

#[test]
fn frames_are_cut_from_the_stream() {
    let data: Vec<u8> = (0..100).collect();
    for step in 1..12usize {
        let mut assembler = FrameAssembler::new(8);
        let mut frames = vec![];
        let mut off = 0;
        while off < data.len() {
            let n = step.min(assembler.room()).min(data.len() - off);
            if let Some(frame) = assembler.add(&data[off..off + n]) {
                frames.push(frame);
            }
            off += n;
        }
        assert_eq!(frames.len(), 12);
        assert!(frames.iter().all(|f| f.len() == 8));
        let mut all = frames.concat();
        all.extend_from_slice(&assembler.part);
        assert_eq!(all, data);
    }
}

#[test]
fn fields_take_turns_when_interlaced() {
    let mut counter = FieldCounter::new(true);
    assert_eq!(counter.step(true, false, false), StreamStep::Wait);
    for n in 1..=6u32 {
        assert_eq!(
            counter.step(true, false, true),
            StreamStep::Send { frame_num: n, field: ((n - 1) % 2) as u8 }
        );
        assert_eq!(counter.is_shown(), n == 5);
    }
    assert_eq!(counter.step(true, true, true), StreamStep::Ended);
    assert_eq!(counter.step(false, true, true), StreamStep::Stopped);
    assert_eq!(counter.frame_count, 6);
}

#[test]
fn progressive_fields_are_all_field_zero() {
    let mut counter = FieldCounter::new(false);
    for n in 1..=3600u32 {
        assert_eq!(counter.step(true, false, true), StreamStep::Send { frame_num: n, field: 0 });
        assert_eq!(counter.is_shown(), n == 5 || n % 1800 == 0);
    }
}

#[test]
fn test_picture_fields() {
    let (f0, f1) = (vec![0u8], vec![1u8]);
    assert_eq!(pick_field(&f0, &f1, true, 0), &f0);
    assert_eq!(pick_field(&f0, &f1, true, 1), &f1);
    assert_eq!(pick_field(&f0, &f1, false, 1), &f0);
}

#[test]
fn ticks_are_regular() {
    let mut pacer = Pacer::new(16_683, 1_000);
    assert_eq!(pacer.interval_ns, 16_683_000);
    assert_eq!(pacer.tick(2_000), 16_683_000 + 1_000 - 2_000);
    assert_eq!(pacer.tick(16_684_000), 16_683_000);
    // Far behind: the next tick is moved to now.
    assert_eq!(pacer.tick(90_000_000), 0);
    assert_eq!(pacer.next_tick_ns, 90_000_000);
    assert_eq!(pacer.tick(90_000_000), 16_683_000);
}

#[test]
fn interval_has_a_lower_bound() {
    assert_eq!(Pacer::new(100, 0).interval_ns, 8_000_000);
    assert_eq!(Pacer::new(8_000, 0).interval_ns, 8_000_000);
    assert_eq!(Pacer::new(8_001, 0).interval_ns, 8_001_000);
}

#[test]
fn sound_follows_the_picture() {
    let mut sync = AudioSync::start();
    for _ in 0..3 {
        assert_eq!(sync.next_read(false), 3840);
        assert!(!sync.took_read(3840));
    }
    let mut dropped = 0;
    loop {
        let n = sync.next_read(true);
        if sync == AudioSync::Sending {
            assert_eq!(n, 4800);
            break;
        }
        assert_eq!(n, 3840.min(57600 - dropped));
        let n = n.min(1001);
        assert!(!sync.took_read(n));
        dropped += n;
    }
    assert_eq!(dropped, 57600);
    assert!(sync.took_read(4800));
    assert!(sync.took_read(1));
    assert_eq!(sync.next_read(false), 4800);
}

fn progress(plex: &PlexClient, start: u64, duration: u64) -> PlexProgress<'_> {
    PlexProgress { plex, rating_key: 9, start_offset_ms: start, duration_ms: duration }
}

#[test]
fn position_is_told_every_ten_seconds() {
    let plex = PlexClient::new("h", 1, "t");
    let p = progress(&plex, 500, 90_000);
    assert!(p.report(20_000, 9_999).is_none());
    assert_eq!(
        p.report(20_000, 10_000).unwrap(),
        "http://h:1/:/timeline?ratingKey=9&key=%2Flibrary%2Fmetadata%2F9&state=playing&time=20500\
         &duration=90000&X-Plex-Token=t"
    );
}

#[test]
fn last_minute_counts_as_watched() {
    let plex = PlexClient::new("h", 1, "t");
    let watched = |start, duration, elapsed| {
        matches!(progress(&plex, start, duration).finish(elapsed), FinalReport::Watched(_))
    };
    assert!(!watched(0, 0, 1_000_000));
    assert!(!watched(0, 1_000_000, 939_999));
    assert!(watched(0, 1_000_000, 940_000));
    assert!(watched(940_000, 1_000_000, 0));
    assert!(watched(0, 60_000, 0));
    assert!(watched(0, 1, 0));
}

#[test]
fn final_reports() {
    let plex = PlexClient::new("h", 1, "t");
    match progress(&plex, 0, 1_000_000).finish(61_999) {
        FinalReport::Position { url, seconds } => {
            assert_eq!(seconds, 61);
            assert_eq!(
                url,
                "http://h:1/:/timeline?ratingKey=9&key=%2Flibrary%2Fmetadata%2F9&state=stopped\
                 &time=61999&duration=1000000&X-Plex-Token=t"
            );
        }
        FinalReport::Watched(url) => panic!("{}", url),
    }
    match progress(&plex, 0, 1_000).finish(1_000) {
        FinalReport::Watched(url) => assert_eq!(
            url,
            "http://h:1/:/scrobble?identifier=com.plexapp.plugins.library&key=9&X-Plex-Token=t"
        ),
        FinalReport::Position { url, .. } => panic!("{}", url),
    }
}

fn mode(name: &str) -> Modeline {
    modelines().into_iter().find(|m| m.name == name).unwrap()
}

#[test]
fn parameters_follow_the_mode() {
    let media = MediaInfo {
        direct_play_url: "http://d".into(),
        title: "T".into(),
        duration_ms: 1,
        view_offset_ms: 2,
        audio_stream_index: Some(3),
        subtitle_stream_index: None,
        subtitle_codec: None,
    };
    let m = mode("720x576i PAL");
    let p = plex_params(&media, &m, double(0.9), Some(double(2.0)), double(50.0), Some("s".into()));
    assert_eq!((p.url.as_str(), p.audio_map.as_str(), p.w, p.ffmpeg_h), ("http://d", "0:3", 720, 288));
    assert_eq!((p.seek, p.ffmpeg_fps), (Seek::Secs(double(2.0)), double(50.0)));
    assert_eq!((p.sub_path.as_deref(), p.scale), (Some("s"), double(0.9)));
    let p = plex_params(&media, &m, double(0.9), None, double(50.0), None);
    assert_eq!(p.seek, Seek::Millis(2));
    let m = mode("320x240 NTSC");
    let p = file_params("/f", &m, double(1.0), None, None, double(60.0), None);
    assert_eq!((p.url.as_str(), p.audio_map.as_str(), p.w, p.ffmpeg_h), ("/f", "0:a:0", 320, 240));
    assert!(p.sub_path.is_none());
    assert_eq!(p.seek, Seek::Millis(0));
}

#[test]
fn playing_starts_where_it_was_left() {
    assert_eq!(start_position(None, 754_321).to_seconds(), "754.321");
    assert_eq!(start_position(Some(double(3.0)), 754_321).to_seconds(), "3.000");
    assert!(start_position(None, 1).is_ahead());
    assert!(!start_position(None, 0).is_ahead());
    assert!(!start_position(Some(double(0.0)), 754_321).is_ahead());
    assert!(!start_position(Some(double(-1.0)), 754_321).is_ahead());
    assert!(!start_position(Some(double(f64::NAN)), 754_321).is_ahead());
    assert!(start_position(Some(double(f64::INFINITY)), 0).is_ahead());
    let args = extract_subs("u", "0:s:0", start_position(None, 12_500), "/tmp/x.ass");
    assert_eq!(args[..2], ["-ss", "12.500"]);
    let args = build_audio_args("u", "0:1", start_position(None, 50));
    assert_eq!(args[..3], ["-re", "-ss", "0.050"]);
    assert_eq!(build_audio_args("u", "0:1", start_position(None, 0))[1], "-i");
    assert_eq!(Seek::Millis(u64::MAX).to_seconds(), "18446744073709551.615");
    for ms in (0..200_000).step_by(7).chain([3_599_999, 86_400_001, 4_000_000_000_007]) {
        assert_eq!(Seek::Millis(ms).to_seconds(), format!("{:.3}", ms as f64 / 1000.0));
    }
}

#[test]
fn seconds_have_three_decimals() {
    let mut list = vec![
        0.0, -0.0, 0.0004, 0.0005, 0.0625, 0.1875, 0.3125, 0.9995, 0.9999, 1.0005, 2.0625, 12.5,
        59.94, 3600.1234, 1e15, 4503599627370497.5, 9007199254740993.0, 1e22, 1e300, f64::MAX,
        f64::MIN_POSITIVE, 5e-324, -1.5, -0.0001, f64::INFINITY, f64::NEG_INFINITY, f64::NAN,
    ];
    let mut x = 0x2545_f491_4f6c_dd1d_u64;
    for _ in 0..2000 {
        x ^= x << 13;
        x ^= x >> 7;
        x ^= x << 17;
        list.push(f64::from_bits(x));
        list.push((x >> 20) as f64 / 65536.0);
    }
    for secs in list {
        assert_eq!(Seek::Secs(double(secs)).to_seconds(), format!("{:.3}", secs));
    }
}

#[test]
fn rates_have_four_decimals() {
    for (rate, words) in [(59.94, "59.9400"), (50.0, "50.0000"), (15.03125, "15.0312"), (0.09375, "0.0938")]
    {
        let p = VideoParams { ffmpeg_fps: double(rate), ..params(1.0, None, 0.0) };
        assert_eq!(build_video_args(&p)[12], words);
        assert_eq!(format!("{:.4}", rate), words);
    }
}

#[test]
fn turns_send_numbered_fields() {
    let m = mode("640x480i NTSC");
    let mut stream = Stream::new(GroovyConnection::connect(), &m);
    let frame = vec![7u8; m.field_size()];
    let mut server = MockGroovyServer::start();
    assert!(matches!(stream.turn(true, false, None), Turn::Wait));
    for n in 1..=6u32 {
        match stream.turn(true, false, Some(&frame)) {
            Turn::Send { datagrams, shown } => {
                let size = datagrams[1..].concat().len() as u32;
                let field = ((n - 1) % 2) as u8;
                assert_eq!(datagrams[0], build_blit(n, field, m.v_begin, Some(size)));
                assert_eq!(shown, n == 5);
                for d in &datagrams {
                    server.handle(d);
                }
            }
            _ => panic!("turn {}", n),
        }
    }
    assert!(matches!(stream.turn(true, true, Some(&frame)), Turn::Ended));
    assert!(matches!(stream.turn(false, false, Some(&frame)), Turn::Stopped));
    let stats = server.stop();
    assert_eq!((stats.blit_count, stats.last_blit_frame, stats.last_blit_field), (6, 6, 1));
    assert!(!stats.has_errors());
}

#[test]
fn raw_turns_send_the_frame_as_it_is() {
    let m = mode("320x240 NTSC");
    let mut stream = Stream::new(GroovyConnection::connect(), &m);
    let frame: Vec<u8> = (0..m.field_size()).map(|i| (i % 251) as u8).collect();
    for n in 1..=2u32 {
        match stream.raw_turn(true, false, Some(&frame)) {
            Turn::Send { datagrams, shown } => {
                assert_eq!(datagrams[0], build_blit(n, 0, m.v_begin, None));
                assert_eq!(datagrams[1..].concat(), frame);
                assert!(!shown);
            }
            _ => panic!("turn {}", n),
        }
    }
    assert!(matches!(stream.raw_turn(true, false, None), Turn::Wait));
    assert!(matches!(stream.raw_turn(true, true, None), Turn::Ended));
    assert!(matches!(stream.raw_turn(false, false, None), Turn::Stopped));
}
