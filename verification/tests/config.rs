use groovy_cli::config::{config_path, resolve, Config, ConfigError, ConfigPlace, CustomModeline};
use groovy_cli::double::Double;

fn double(x: f64) -> Double {
    Double { bits: x.to_bits() }
}

fn float(x: Double) -> f64 {
    f64::from_bits(x.bits)
}

#[test]
fn test_resolve_defaults() {
    let cfg = Config::default();
    // Can't resolve without token
    assert!(resolve(None, None, None, None, None, None, &cfg).is_err());
}

#[test]
fn test_resolve_with_token() {
    let cfg = Config { token: Some("test".into()), ..Default::default() };
    let r = resolve(None, None, None, None, None, None, &cfg).ok().unwrap();
    assert_eq!(r.mister, "192.168.0.115");
    assert_eq!(r.port, 32400);
    assert_eq!(float(r.scale), 1.0);
    assert_eq!(r.modeline_name, "640x480i NTSC");
}

#[test]
fn test_resolve_cli_overrides() {
    let cfg = Config {
        token: Some("test".into()),
        scale: Some(double(0.9)),
        ..Default::default()
    };
    let r = resolve(
        Some("10.0.0.1".into()),
        None,
        Some(8080),
        None,
        Some("320x240 NTSC".into()),
        Some(double(0.85)),
        &cfg,
    )
    .ok()
    .unwrap();
    assert_eq!(r.mister, "10.0.0.1");
    assert_eq!(r.port, 8080);
    assert_eq!(float(r.scale), 0.85);
    assert_eq!(r.modeline_name, "320x240 NTSC");
}

#[test]
fn test_scale_clamping() {
    let cfg = Config { token: Some("t".into()), ..Default::default() };
    let r = resolve(None, None, None, None, None, Some(double(0.1)), &cfg).ok().unwrap();
    assert_eq!(float(r.scale), 0.3);
    let r = resolve(None, None, None, None, None, Some(double(5.0)), &cfg).ok().unwrap();
    assert_eq!(float(r.scale), 1.0);
}

#[test]
fn test_modeline_lookup() {
    let cfg = Config { token: Some("t".into()), ..Default::default() };
    let r = resolve(None, None, None, None, Some("640x480i NTSC".into()), None, &cfg).ok().unwrap();
    let m = r.modeline().unwrap();
    assert_eq!(m.h_active, 640);
    assert_eq!(m.v_active, 480);
    assert!(m.interlace);
}

#[test]
fn test_modeline_unknown() {
    let cfg = Config { token: Some("t".into()), ..Default::default() };
    let r = resolve(None, None, None, None, Some("bogus".into()), None, &cfg).ok().unwrap();
    assert!(r.modeline().is_err());
}

#[test]
fn test_custom_modeline() {
    let cfg = Config {
        token: Some("t".into()),
        custom_modeline: Some(CustomModeline {
            p_clock: double(6.7),
            h_active: 320,
            h_begin: 336,
            h_end: 367,
            h_total: 426,
            v_active: 240,
            v_begin: 244,
            v_end: 247,
            v_total: 262,
            interlace: false,
        }),
        ..Default::default()
    };
    let r = resolve(None, None, None, None, None, None, &cfg).ok().unwrap();
    let m = r.modeline().unwrap();
    assert_eq!(m.name, "custom");
    assert_eq!(m.h_active, 320);
    assert!(!m.interlace);
}

#[test]
fn custom_modeline_keeps_every_number() {
    let custom = CustomModeline {
        p_clock: double(13.5),
        h_active: 1,
        h_begin: 2,
        h_end: 3,
        h_total: 4,
        v_active: 5,
        v_begin: 6,
        v_end: 7,
        v_total: 8,
        interlace: true,
    };
    let cfg = Config {
        token: Some("t".into()),
        modeline: Some("bogus".into()),
        custom_modeline: Some(custom),
        ..Default::default()
    };
    let m = resolve(None, None, None, None, None, None, &cfg).ok().unwrap().modeline().unwrap();
    assert_eq!(float(m.p_clock), 13.5);
    assert_eq!([m.h_active, m.h_begin, m.h_end, m.h_total], [1, 2, 3, 4]);
    assert_eq!([m.v_active, m.v_begin, m.v_end, m.v_total], [5, 6, 7, 8]);
    assert!(m.interlace);
}

#[test]
fn file_settings_hold_where_nothing_is_given() {
    let cfg = Config {
        mister: Some("a".into()),
        server: Some("b".into()),
        port: Some(1),
        token: Some("c".into()),
        modeline: Some("d".into()),
        scale: Some(double(0.5)),
        custom_modeline: None,
    };
    let r = resolve(None, None, None, None, None, None, &cfg).ok().unwrap();
    assert_eq!((r.mister.as_str(), r.server.as_str(), r.port), ("a", "b", 1));
    assert_eq!((r.token.as_str(), r.modeline_name.as_str()), ("c", "d"));
    assert_eq!(float(r.scale), 0.5);
    let r = resolve(
        Some("A".into()),
        Some("B".into()),
        Some(2),
        Some("C".into()),
        Some("D".into()),
        Some(double(0.6)),
        &cfg,
    )
    .ok()
    .unwrap();
    assert_eq!((r.mister.as_str(), r.server.as_str(), r.port), ("A", "B", 2));
    assert_eq!((r.token.as_str(), r.modeline_name.as_str()), ("C", "D"));
    assert_eq!(float(r.scale), 0.6);
}

#[test]
fn server_defaults_to_this_machine() {
    let cfg = Config { token: Some("t".into()), ..Default::default() };
    let r = resolve(None, None, None, None, None, None, &cfg).ok().unwrap();
    assert_eq!(r.server, "localhost");
    let plex = r.plex();
    assert_eq!(plex.base_url, "http://localhost:32400");
    assert_eq!(plex.token, "t");
}

#[test]
fn missing_token_is_explained() {
    let error = resolve(None, None, None, None, None, None, &Config::default()).err().unwrap();
    assert!(matches!(error, ConfigError::NoToken));
    assert_eq!(
        error.message(),
        "No Plex token. Set via --token, PLEX_TOKEN env, or 'token' in \
         ~/.config/groovy-cli/config.toml"
    );
}

#[test]
fn unknown_modeline_is_answered_with_the_presets() {
    let cfg = Config { token: Some("t".into()), ..Default::default() };
    let r = resolve(None, None, None, None, Some("bogus".into()), None, &cfg).ok().unwrap();
    let error = r.modeline().err().unwrap();
    assert!(matches!(&error, ConfigError::UnknownModeline(name) if name == "bogus"));
    assert_eq!(
        error.message(),
        "Unknown modeline 'bogus'. Available:\n  256x240 NTSC\n  320x240 NTSC\n  320x480i NTSC\n  \
         640x480i NTSC\n  720x480i NTSC\n  256x240 PAL\n  320x240 PAL\n  320x480i PAL\n  \
         640x480i PAL\n  720x576i PAL"
    );
}

#[test]
fn scale_that_is_no_number_stays() {
    let cfg = Config { token: Some("t".into()), ..Default::default() };
    let r = resolve(None, None, None, None, None, Some(double(f64::NAN)), &cfg).ok().unwrap();
    assert!(float(r.scale).is_nan());
}

#[test]
fn config_file_places() {
    assert_eq!(config_path(true, true), ConfigPlace::Home);
    assert_eq!(config_path(true, false), ConfigPlace::Home);
    assert_eq!(config_path(false, true), ConfigPlace::System);
    assert_eq!(config_path(false, false), ConfigPlace::Home);
}
