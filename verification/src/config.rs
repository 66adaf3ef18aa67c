//! Settings: from the command line, else from the configuration file, else by default.

use crate::double;
use crate::double::Double;
use crate::groovy;
use crate::groovy::Modeline;
use crate::plex::PlexClient;
use crate::text;
use vstd::prelude::*;
use vstd::string::*;

verus! {

/// What the configuration file can set.
pub struct Config {
    pub mister: Option<String>,
    pub server: Option<String>,
    pub port: Option<u16>,
    pub token: Option<String>,
    pub modeline: Option<String>,
    /// The part of the screen that the picture takes.
    pub scale: Option<Double>,
    /// A mode that is used in place of a preset.
    pub custom_modeline: Option<CustomModeline>,
}

impl Default for Config {
    fn default() -> (config: Config)
        ensures
            config == (Config {
                mister: None,
                server: None,
                port: None,
                token: None,
                modeline: None,
                scale: None,
                custom_modeline: None,
            }),
    {
        Config {
            mister: None,
            server: None,
            port: None,
            token: None,
            modeline: None,
            scale: None,
            custom_modeline: None,
        }
    }
}

/// A mode of the user's own.
#[derive(Clone, Copy, Debug)]
pub struct CustomModeline {
    pub p_clock: Double,
    pub h_active: u16,
    pub h_begin: u16,
    pub h_end: u16,
    pub h_total: u16,
    pub v_active: u16,
    pub v_begin: u16,
    pub v_end: u16,
    pub v_total: u16,
    pub interlace: bool,
}

impl CustomModeline {
    /// The mode, under the name `custom`.
    pub open spec fn mode(self) -> Modeline {
        groovy::preset(
            "custom",
            self.p_clock.bits,
            self.h_active,
            self.h_begin,
            self.h_end,
            self.h_total,
            self.v_active,
            self.v_begin,
            self.v_end,
            self.v_total,
            self.interlace,
        )
    }
}

/// The settings that hold.
pub struct ResolvedConfig {
    pub mister: String,
    pub server: String,
    pub port: u16,
    pub token: String,
    pub modeline_name: String,
    pub scale: Double,
    pub custom_modeline: Option<CustomModeline>,
}

/// What the settings lack.
#[derive(Debug)]
pub enum ConfigError {
    /// There is no Plex token.
    NoToken,
    /// There is no preset with this name.
    UnknownModeline(String),
}

/// The names of modes, each behind a line break and two spaces but for the first.
pub open spec fn name_list(modes: Seq<Modeline>) -> Seq<char>
    decreases modes.len(),
{
    if modes.len() == 0 {
        seq![]
    } else if modes.len() == 1 {
        modes[0].name@
    } else {
        name_list(modes.drop_last()) + "\n  "@ + modes.last().name@
    }
}

fn push_names(out: &mut String, modes: &Vec<Modeline>)
    ensures
        final(out)@ == old(out)@ + name_list(modes@),
{
    let mut i: usize = 0;
    assert(modes@.take(0) =~= seq![]);
    assert(out@ =~= old(out)@ + name_list(modes@.take(0)));
    while i < modes.len()
        invariant
            i <= modes@.len(),
            out@ == old(out)@ + name_list(modes@.take(i as int)),
        decreases modes@.len() - i,
    {
        let ghost before = out@;
        if i > 0 {
            out.append("\n  ");
        }
        out.append(modes[i].name);
        proof {
            let shown = modes@.take(i + 1);
            assert(shown.drop_last() =~= modes@.take(i as int));
            assert(shown.last() == modes@[i as int]);
            assert(out@ =~= old(out)@ + name_list(shown));
        }
        i += 1;
    }
    assert(modes@.take(modes@.len() as int) =~= modes@);
}

impl ConfigError {
    /// The error in words.
    pub open spec fn words(self) -> Seq<char> {
        match self {
            ConfigError::NoToken =>
                "No Plex token. Set via --token, PLEX_TOKEN env, or 'token' in ~/.config/groovy-cli/config.toml"@,
            ConfigError::UnknownModeline(name) => "Unknown modeline '"@ + name@
                + "'. Available:\n  "@ + name_list(groovy::preset_modelines()),
        }
    }

    /// The error in words; an unknown mode is answered with the names of the presets.
    pub fn message(&self) -> (words: String)
        ensures
            words@ == self.words(),
    {
        match self {
            ConfigError::NoToken =>
                "No Plex token. Set via --token, PLEX_TOKEN env, or 'token' in ~/.config/groovy-cli/config.toml".to_string(),
            ConfigError::UnknownModeline(name) => {
                let mut words: String = "Unknown modeline '".to_string();
                words.append(name.as_str());
                words.append("'. Available:\n  ");
                push_names(&mut words, &groovy::modelines());
                words
            },
        }
    }
}

/// The first mode with a name.
pub open spec fn mode_named(modes: Seq<Modeline>, name: Seq<char>) -> Option<Modeline>
    decreases modes.len(),
{
    if modes.len() == 0 {
        None
    } else if modes[0].name@ == name {
        Some(modes[0])
    } else {
        mode_named(modes.skip(1), name)
    }
}

impl ResolvedConfig {
    /// The mode that is set: the user's own, else the preset with the name.
    pub open spec fn mode(self) -> Option<Modeline> {
        match self.custom_modeline {
            Some(custom) => Some(custom.mode()),
            None => mode_named(groovy::preset_modelines(), self.modeline_name@),
        }
    }

    /// The mode that is set; an error where there is no preset with the name.
    pub fn modeline(&self) -> (mode: Result<Modeline, ConfigError>)
        ensures
            match mode {
                Ok(m) => self.mode() == Some(m),
                Err(error) => {
                    &&& self.mode() is None
                    &&& error matches ConfigError::UnknownModeline(name) && name@
                        == self.modeline_name@
                },
            },
    {
        if let Some(custom) = self.custom_modeline {
            return Ok(
                Modeline {
                    name: "custom",
                    p_clock: custom.p_clock,
                    h_active: custom.h_active,
                    h_begin: custom.h_begin,
                    h_end: custom.h_end,
                    h_total: custom.h_total,
                    v_active: custom.v_active,
                    v_begin: custom.v_begin,
                    v_end: custom.v_end,
                    v_total: custom.v_total,
                    interlace: custom.interlace,
                },
            );
        }
        let modes: Vec<Modeline> = groovy::modelines();
        let mut i: usize = 0;
        assert(modes@.skip(0) =~= modes@);
        while i < modes.len()
            invariant
                i <= modes@.len(),
                modes@ == groovy::preset_modelines(),
                mode_named(modes@, self.modeline_name@) == mode_named(
                    modes@.skip(i as int),
                    self.modeline_name@,
                ),
                self.custom_modeline is None,
            decreases modes@.len() - i,
        {
            assert(modes@.skip(i as int)[0] == modes@[i as int]);
            if text::same_text(modes[i].name, self.modeline_name.as_str()) {
                return Ok(modes[i]);
            }
            assert(modes@.skip(i as int).skip(1) =~= modes@.skip(i + 1));
            i += 1;
        }
        assert(modes@.skip(i as int) =~= seq![]);
        Err(ConfigError::UnknownModeline(self.modeline_name.clone()))
    }

    /// A client of the Plex server that is set.
    pub fn plex(&self) -> (client: PlexClient)
        ensures
            client.base_url@ == PlexClient::address(self.server@, self.port),
            client.token@ == self.token@,
    {
        PlexClient::new(self.server.as_str(), self.port, self.token.as_str())
    }
}

/// A text by the first source that gives one.
pub open spec fn cascaded(given: Option<String>, configured: Option<String>) -> Option<Seq<char>> {
    match (given, configured) {
        (Some(text), _) => Some(text@),
        (None, Some(text)) => Some(text@),
        (None, None) => None,
    }
}

/// A text by the first source that gives one, else the default.
pub open spec fn cascaded_or(
    given: Option<String>,
    configured: Option<String>,
    default: Seq<char>,
) -> Seq<char> {
    match cascaded(given, configured) {
        Some(text) => text,
        None => default,
    }
}

fn cascade(given: Option<String>, configured: &Option<String>) -> (chosen: Option<String>)
    ensures
        (match chosen {
            Some(text) => Some(text@),
            None => None,
        }) == cascaded(given, *configured),
{
    match given {
        Some(text) => Some(text),
        None => match configured {
            Some(text) => Some(text.clone()),
            None => None,
        },
    }
}

fn cascade_or(given: Option<String>, configured: &Option<String>, default: &str) -> (chosen: String)
    ensures
        chosen@ == cascaded_or(given, *configured, default@),
{
    match cascade(given, configured) {
        Some(text) => text,
        None => default.to_string(),
    }
}

/// The scale that holds: as given, else as configured, else one; at least three tenths and at most
/// one.
pub open spec fn resolved_scale(given: Option<Double>, configured: Option<Double>) -> Double {
    let scale = match (given, configured) {
        (Some(s), _) => s,
        (None, Some(s)) => s,
        (None, None) => Double { bits: double::ONE },
    };
    scale.clamped(Double { bits: double::THREE_TENTHS }, Double { bits: double::ONE })
}

/// The settings that hold. What is given goes before what the file says, and that before the
/// defaults; a token has no default.
pub fn resolve(
    mister: Option<String>,
    server: Option<String>,
    port: Option<u16>,
    token: Option<String>,
    modeline: Option<String>,
    scale: Option<Double>,
    cfg: &Config,
) -> (resolved: Result<ResolvedConfig, ConfigError>)
    ensures
        match resolved {
            Ok(r) => {
                &&& cascaded(token, cfg.token) == Some(r.token@)
                &&& r.mister@ == cascaded_or(mister, cfg.mister, "192.168.0.115"@)
                &&& r.server@ == cascaded_or(server, cfg.server, "localhost"@)
                &&& r.port == match (port, cfg.port) {
                    (Some(p), _) => p,
                    (None, Some(p)) => p,
                    (None, None) => 32400,
                }
                &&& r.modeline_name@ == cascaded_or(modeline, cfg.modeline, "640x480i NTSC"@)
                &&& r.scale == resolved_scale(scale, cfg.scale)
                &&& r.custom_modeline == cfg.custom_modeline
            },
            Err(error) => error is NoToken && cascaded(token, cfg.token) is None,
        },
        resolved is Ok <==> token is Some || cfg.token is Some,
        resolved matches Ok(r) ==> {
            &&& token matches Some(given) ==> r.token@ == given@
            &&& token is None ==> r.token@ == cfg.token->0@
            &&& mister matches Some(given) ==> r.mister@ == given@
            &&& server matches Some(given) ==> r.server@ == given@
            &&& port matches Some(given) ==> r.port == given
            &&& modeline matches Some(given) ==> r.modeline_name@ == given@
            &&& mister is None && cfg.mister is Some ==> r.mister@ == cfg.mister->0@
            &&& server is None && cfg.server is Some ==> r.server@ == cfg.server->0@
            &&& port is None && cfg.port is Some ==> r.port == cfg.port->0
            &&& modeline is None && cfg.modeline is Some ==> r.modeline_name@ == cfg.modeline->0@
        },
{
    let mister: String = cascade_or(mister, &cfg.mister, "192.168.0.115");
    let server: String = cascade_or(server, &cfg.server, "localhost");
    let port: u16 = match port {
        Some(p) => p,
        None => match cfg.port {
            Some(p) => p,
            None => 32400,
        },
    };
    let token: String = match cascade(token, &cfg.token) {
        Some(text) => text,
        None => {
            return Err(ConfigError::NoToken);
        },
    };
    let modeline_name: String = cascade_or(modeline, &cfg.modeline, "640x480i NTSC");
    let unclamped: Double = match scale {
        Some(s) => s,
        None => match cfg.scale {
            Some(s) => s,
            None => Double { bits: double::ONE },
        },
    };
    let scale: Double = unclamped.clamp(
        Double { bits: double::THREE_TENTHS },
        Double { bits: double::ONE },
    );
    Ok(
        ResolvedConfig {
            mister,
            server,
            port,
            token,
            modeline_name,
            scale,
            custom_modeline: cfg.custom_modeline,
        },
    )
}

/// The two places of the configuration file.
#[derive(Clone, Copy, Debug, PartialEq, Eq, Structural)]
pub enum ConfigPlace {
    /// `.config/groovy-cli/config.toml` under the home directory.
    Home,
    /// `groovy-cli/config.toml` under the directory that the system keeps for configuration.
    System,
}

/// Where the configuration file is: under the home directory where it is there already or the
/// system has no other place.
pub fn config_path(found_at_home: bool, system_has_place: bool) -> (place: ConfigPlace)
    ensures
        place == if found_at_home || !system_has_place {
            ConfigPlace::Home
        } else {
            ConfigPlace::System
        },
{
    if found_at_home || !system_has_place {
        ConfigPlace::Home
    } else {
        ConfigPlace::System
    }
}

/// The picture takes at least three tenths of the screen and at most the whole, whatever number is
/// set.
pub proof fn law_scale_is_within_bounds(given: Option<Double>, configured: Option<Double>)
    requires
        given matches Some(s) ==> !s.is_nan(),
        given is None ==> (configured matches Some(s) ==> !s.is_nan()),
    ensures
        !resolved_scale(given, configured).is_nan(),
        (Double { bits: double::THREE_TENTHS }).rank() <= resolved_scale(given, configured).rank()
            <= (Double { bits: double::ONE }).rank(),
{
}

/// What is given goes before what the file says, and that before the default.
pub proof fn law_given_goes_first(
    given: Option<String>,
    configured: Option<String>,
    other: Option<String>,
    default: Seq<char>,
)
    ensures
        given matches Some(text) ==> cascaded(given, configured) == Some(text@) && cascaded_or(
            given,
            configured,
            default,
        ) == text@,
        given is Some ==> cascaded(given, configured) == cascaded(given, other),
        given is None ==> (configured matches Some(text) ==> cascaded(given, configured) == Some(
            text@,
        ) && cascaded_or(given, configured, default) == text@),
        given is None && configured is None ==> cascaded(given, configured) is None && cascaded_or(
            given,
            configured,
            default,
        ) == default,
{
}

/// A scale that is given holds whatever the file says; one from three tenths to one is taken as it
/// is, and a smaller or larger one is taken to the bound next to it. Without any the scale is one.
pub proof fn law_scale_within_bounds_is_kept(
    scale: Double,
    configured: Option<Double>,
)
    requires
        !scale.is_nan(),
    ensures
        ({
            let least = Double { bits: 0x3fd3_3333_3333_3333 };
            let most = Double { bits: 0x3ff0_0000_0000_0000 };
            let held = resolved_scale(Some(scale), configured);
            &&& held == resolved_scale(None, Some(scale))
            &&& !scale.less(least) && !most.less(scale) ==> held == scale
            &&& scale.less(least) ==> held == least
            &&& most.less(scale) ==> held == most
            &&& resolved_scale(None, None) == most
        }),
{
}

/// The mode of the user's own is used wherever there is one, with every number of it.
pub proof fn law_own_mode_is_used(config: ResolvedConfig)
    requires
        config.custom_modeline is Some,
    ensures
        config.mode() matches Some(m) && {
            let own = config.custom_modeline->0;
            &&& m.name@ == "custom"@
            &&& m.p_clock == own.p_clock
            &&& m.h_active == own.h_active
            &&& m.h_begin == own.h_begin
            &&& m.h_end == own.h_end
            &&& m.h_total == own.h_total
            &&& m.v_active == own.v_active
            &&& m.v_begin == own.v_begin
            &&& m.v_end == own.v_end
            &&& m.v_total == own.v_total
            &&& m.interlace == own.interlace
        },
{
}

/// Without a mode of the user's own the mode is the first preset with the name that is set, and
/// there is none just where no preset has the name.
pub proof fn law_preset_is_found_by_name(config: ResolvedConfig)
    requires
        config.custom_modeline is None,
    ensures
        match config.mode() {
            Some(m) => exists|i: int|
                {
                    &&& 0 <= i < groovy::preset_modelines().len()
                    &&& m == #[trigger] groovy::preset_modelines()[i]
                    &&& m.name@ == config.modeline_name@
                    &&& forall|j: int|
                        0 <= j < i ==> (#[trigger] groovy::preset_modelines()[j]).name@
                            != config.modeline_name@
                },
            None => forall|i: int|
                0 <= i < groovy::preset_modelines().len() ==> (
                #[trigger] groovy::preset_modelines()[i]).name@ != config.modeline_name@,
        },
{
    let modes = groovy::preset_modelines();
    let name = config.modeline_name@;
    let place = lemma_mode_named(modes, name);
    if let Some(i) = place {
        assert(config.mode() == Some(groovy::preset_modelines()[i]));
    }
}

proof fn lemma_mode_named(modes: Seq<Modeline>, name: Seq<char>) -> (place: Option<int>)
    ensures
        match place {
            Some(i) => {
                &&& 0 <= i < modes.len()
                &&& mode_named(modes, name) == Some(modes[i])
                &&& modes[i].name@ == name
                &&& forall|j: int| 0 <= j < i ==> (#[trigger] modes[j]).name@ != name
            },
            None => mode_named(modes, name) is None && forall|j: int|
                0 <= j < modes.len() ==> (#[trigger] modes[j]).name@ != name,
        },
    decreases modes.len(),
{
    if modes.len() == 0 {
        None
    } else if modes[0].name@ == name {
        Some(0)
    } else {
        let rest = modes.skip(1);
        let place = lemma_mode_named(rest, name);
        assert forall|j: int| 1 <= j < modes.len() implies (#[trigger] modes[j]) == rest[j - 1] by {}
        match place {
            Some(i) => Some(i + 1),
            None => None,
        }
    }
}

/// An unknown mode is answered with its name and with the names of all presets.
pub proof fn law_unknown_mode_is_answered_with_all_names(error: ConfigError, i: int)
    requires
        error is UnknownModeline,
        0 <= i < groovy::preset_modelines().len(),
    ensures
        ("Unknown modeline '"@ + error->UnknownModeline_0@ + "'. Available:\n  "@).is_prefix_of(
            error.words(),
        ),
        text::occurs_in(groovy::preset_modelines()[i].name@, error.words()),
{
    let names = name_list(groovy::preset_modelines());
    let first = "Unknown modeline '"@ + error->UnknownModeline_0@ + "'. Available:\n  "@;
    let words = error.words();
    assert(words =~= first + names);
    assert(words.subrange(0, first.len() as int) =~= first);
    let name = groovy::preset_modelines()[i].name@;
    let at = lemma_name_is_listed(groovy::preset_modelines(), i);
    let from = first.len() + at;
    assert(words.subrange(from, from + name.len()) =~= names.subrange(at, at + name.len()));
}

proof fn lemma_name_is_listed(modes: Seq<Modeline>, i: int) -> (at: int)
    requires
        0 <= i < modes.len(),
    ensures
        0 <= at,
        at + modes[i].name@.len() <= name_list(modes).len(),
        name_list(modes).subrange(at, at + modes[i].name@.len()) == modes[i].name@,
    decreases modes.len(),
{
    let names = name_list(modes);
    let name = modes[i].name@;
    if modes.len() == 1 {
        assert(names.subrange(0, name.len() as int) =~= name);
        0
    } else if i == modes.len() - 1 {
        let at = names.len() - name.len();
        assert(names.subrange(at, at + name.len()) =~= name);
        at
    } else {
        let rest = modes.drop_last();
        let at = lemma_name_is_listed(rest, i);
        assert(rest[i] == modes[i]);
        assert(names.subrange(at, at + name.len()) =~= name_list(rest).subrange(
            at,
            at + name.len(),
        ));
        at
    }
}

} // verus!
