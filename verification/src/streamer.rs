//! Playing: which subtitles and sound to ask for, when to send which field, how the sound follows
//! the picture, and what the Plex server is told.

use crate::connection;
use crate::connection::GroovyConnection;
use crate::double::Double;
use crate::ffmpeg::{Seek, VideoParams};
use crate::groovy;
use crate::groovy::Modeline;
use crate::lz4;
use crate::plex::{MediaInfo, PlexClient};
use crate::text;
use vstd::prelude::*;
use vstd::string::*;

verus! {

/// A subtitle stream to be written to a file: the stream as FFmpeg names it, and the ending of the
/// file's name.
pub struct SubtitleSource {
    pub map: String,
    pub extension: String,
}

/// Whether a codec is written to a file of its own kind.
pub open spec fn is_ass(codec: Seq<char>) -> bool {
    codec == "ass"@ || codec == "ssa"@
}

/// The subtitles of a Plex item, by the index of their stream: none where no stream was picked.
/// Where the codec is not known it counts as `srt`.
pub fn extract_plex_subs(sub_index: Option<u32>, sub_codec: Option<&str>) -> (source: Option<
    SubtitleSource,
>)
    ensures
        match source {
            Some(s) => {
                &&& sub_index matches Some(index) && s.map@ == "0:"@ + text::decimal(index as nat)
                &&& s.extension@ == if sub_codec matches Some(codec) && is_ass(codec@) {
                    "ass"@
                } else {
                    "srt"@
                }
            },
            None => sub_index is None,
        },
{
    match sub_index {
        None => None,
        Some(index) => {
            let mut map: String = "0:".to_string();
            text::push_decimal(&mut map, index as u64);
            let ass: bool = match sub_codec {
                Some(codec) => text::same_text(codec, "ass") || text::same_text(codec, "ssa"),
                None => false,
            };
            let extension: String = if ass {
                "ass".to_string()
            } else {
                "srt".to_string()
            };
            Some(SubtitleSource { map, extension })
        },
    }
}

/// The subtitle track of a local file that a setting asks for: the first where nothing is set, none
/// where they are switched off or the setting is no number.
pub open spec fn file_track(setting: Option<Seq<char>>) -> Option<int> {
    match setting {
        Some(s) => if text::same_ignoring_case(s, "none"@) || s == "off"@ {
            None
        } else {
            text::number_value(s, 10, u32::MAX as int)
        },
        None => Some(0),
    }
}

/// The subtitles of a local file, by the number of their track.
pub fn extract_file_subs(sub_option: Option<&str>) -> (source: Option<SubtitleSource>)
    ensures
        match source {
            Some(s) => {
                &&& file_track(
                    match sub_option {
                        Some(o) => Some(o@),
                        None => None,
                    },
                ) matches Some(track) && s.map@ == "0:s:"@ + text::decimal(track as nat)
                &&& s.extension@ == "ass"@
            },
            None => file_track(
                match sub_option {
                    Some(o) => Some(o@),
                    None => None,
                },
            ) is None,
        },
{
    let track: u64 = match sub_option {
        Some(option) => {
            if text::equal_ignoring_case(option, "none") || text::same_text(option, "off") {
                return None;
            }
            match text::parse_number(option, 10, u32::MAX as u64) {
                Some(n) => n,
                None => {
                    return None;
                },
            }
        },
        None => 0,
    };
    let mut map: String = "0:s:".to_string();
    text::push_decimal(&mut map, track);
    Some(SubtitleSource { map, extension: "ass".to_string() })
}

/// The sound of a Plex item as FFmpeg names it: by the index of its stream, else the first.
pub fn plex_audio_map(audio_index: Option<u32>) -> (map: String)
    ensures
        map@ == match audio_index {
            Some(index) => "0:"@ + text::decimal(index as nat),
            None => "0:a:0"@,
        },
{
    match audio_index {
        Some(index) => {
            let mut map: String = "0:".to_string();
            text::push_decimal(&mut map, index as u64);
            map
        },
        None => "0:a:0".to_string(),
    }
}

/// The sound of a local file as FFmpeg names it: by the number of its track, else the first.
pub fn file_audio_map(audio_track: Option<u32>) -> (map: String)
    ensures
        map@ == match audio_track {
            Some(track) => "0:a:"@ + text::decimal(track as nat),
            None => "0:a:0"@,
        },
{
    match audio_track {
        Some(track) => {
            let mut map: String = "0:a:".to_string();
            text::push_decimal(&mut map, track as u64);
            map
        },
        None => "0:a:0".to_string(),
    }
}

/// Where playing starts: at the position that is asked for, else at the one where it was left.
pub open spec fn start(seek_override: Option<Double>, view_offset_ms: u64) -> Seek {
    match seek_override {
        Some(secs) => Seek::Secs(secs),
        None => Seek::Millis(view_offset_ms),
    }
}

/// Where playing starts: at the position that is asked for, else at the one where it was left. What
/// was never played, and a local file, was left at its start.
pub fn start_position(seek_override: Option<Double>, view_offset_ms: u64) -> (seek: Seek)
    ensures
        seek == start(seek_override, view_offset_ms),
{
    match seek_override {
        Some(secs) => Seek::Secs(secs),
        None => Seek::Millis(view_offset_ms),
    }
}

/// What FFmpeg is to do for a Plex item: the whole of each field comes out of it, in the width and
/// the field height of the mode.
pub fn plex_params(
    media: &MediaInfo,
    modeline: &Modeline,
    scale: Double,
    seek_override: Option<Double>,
    ffmpeg_fps: Double,
    sub_path: Option<String>,
) -> (params: VideoParams)
    ensures
        params.url@ == media.direct_play_url@,
        params.audio_map@ == match media.audio_stream_index {
            Some(index) => "0:"@ + text::decimal(index as nat),
            None => "0:a:0"@,
        },
        params.w == modeline.h_active,
        params.ffmpeg_h == modeline.field_rows(),
        params.scale == scale,
        params.seek == start(seek_override, media.view_offset_ms),
        params.ffmpeg_fps == ffmpeg_fps,
        params.sub_path == sub_path,
{
    VideoParams {
        url: media.direct_play_url.clone(),
        seek: start_position(seek_override, media.view_offset_ms),
        sub_path,
        audio_map: plex_audio_map(media.audio_stream_index),
        w: modeline.h_active as usize,
        ffmpeg_h: modeline.field_height(),
        ffmpeg_fps,
        scale,
    }
}

/// What FFmpeg is to do for a local file.
pub fn file_params(
    path: &str,
    modeline: &Modeline,
    scale: Double,
    audio_track: Option<u32>,
    seek_override: Option<Double>,
    ffmpeg_fps: Double,
    sub_path: Option<String>,
) -> (params: VideoParams)
    ensures
        params.url@ == path@,
        params.audio_map@ == match audio_track {
            Some(track) => "0:a:"@ + text::decimal(track as nat),
            None => "0:a:0"@,
        },
        params.w == modeline.h_active,
        params.ffmpeg_h == modeline.field_rows(),
        params.scale == scale,
        params.seek == start(seek_override, 0),
        params.ffmpeg_fps == ffmpeg_fps,
        params.sub_path == sub_path,
{
    VideoParams {
        url: path.to_string(),
        seek: start_position(seek_override, 0),
        sub_path,
        audio_map: file_audio_map(audio_track),
        w: modeline.h_active as usize,
        ffmpeg_h: modeline.field_height(),
        ffmpeg_fps,
        scale,
    }
}

/// What the sending loop does next.
#[derive(Clone, Copy, Debug, PartialEq, Eq, Structural)]
pub enum StreamStep {
    /// It was stopped.
    Stopped,
    /// The video is at its end.
    Ended,
    /// There is no frame yet.
    Wait,
    /// The latest frame is sent, as this field.
    Send { frame_num: u32, field: u8 },
}

/// The sending loop: how many fields were sent, and which field comes next.
#[derive(Clone, Copy, Debug, PartialEq, Eq, Structural)]
pub struct FieldCounter {
    pub frame_count: u32,
    pub current_field: u8,
    pub interlace: bool,
}

/// The counter after a field was sent.
pub open spec fn counted(counter: FieldCounter) -> FieldCounter {
    FieldCounter {
        frame_count: (counter.frame_count + 1) as u32,
        current_field: if counter.interlace {
            (1 - counter.current_field) as u8
        } else {
            counter.current_field
        },
        interlace: counter.interlace,
    }
}

impl FieldCounter {
    /// What every step keeps: in an interlaced mode the fields take turns, from field 0 on; else
    /// there is field 0 only.
    pub open spec fn wf(self) -> bool {
        self.current_field == if self.interlace {
            self.frame_count as int % 2
        } else {
            0
        }
    }

    /// A loop that has sent nothing.
    pub fn new(interlace: bool) -> (counter: FieldCounter)
        ensures
            counter.wf(),
            counter == (FieldCounter { frame_count: 0, current_field: 0, interlace }),
    {
        FieldCounter { frame_count: 0, current_field: 0, interlace }
    }

    /// What comes next.
    pub open spec fn next(self, running: bool, ended: bool, has_frame: bool) -> StreamStep {
        if !running {
            StreamStep::Stopped
        } else if ended {
            StreamStep::Ended
        } else if !has_frame {
            StreamStep::Wait
        } else {
            StreamStep::Send {
                frame_num: (self.frame_count + 1) as u32,
                field: self.current_field,
            }
        }
    }

    /// Decides what comes next, and counts a field that is sent.
    pub fn step(&mut self, running: bool, ended: bool, has_frame: bool) -> (step: StreamStep)
        requires
            old(self).wf(),
            old(self).frame_count < u32::MAX,
        ensures
            final(self).wf(),
            step == old(self).next(running, ended, has_frame),
            *final(self) == if step is Send {
                counted(*old(self))
            } else {
                *old(self)
            },
    {
        if !running {
            return StreamStep::Stopped;
        }
        if ended {
            return StreamStep::Ended;
        }
        if !has_frame {
            return StreamStep::Wait;
        }
        self.frame_count = self.frame_count + 1;
        let step = StreamStep::Send { frame_num: self.frame_count, field: self.current_field };
        if self.interlace {
            self.current_field = if self.current_field == 0 {
                1
            } else {
                0
            };
        }
        step
    }

    /// Whether the state of the session is shown after this field: after the fifth, and then about
    /// twice a minute.
    pub fn is_shown(&self) -> (yes: bool)
        ensures
            yes == (self.frame_count == 5 || self.frame_count % 1800 == 0),
    {
        self.frame_count == 5 || self.frame_count % 1800 == 0
    }
}

/// Fields are numbered from one without a gap; in an interlaced mode odd numbers are field 0 and
/// even numbers field 1.
pub proof fn law_fields_take_turns(counter: FieldCounter, running: bool, ended: bool, has_frame: bool)
    requires
        counter.wf(),
        counter.frame_count < u32::MAX,
    ensures
        counter.next(running, ended, has_frame) matches StreamStep::Send { frame_num, field } ==> {
            &&& frame_num == counter.frame_count + 1
            &&& field == if counter.interlace {
                (frame_num - 1) % 2
            } else {
                0
            }
        },
{
}

/// One turn of the sending loop.
pub enum Turn {
    /// It was stopped.
    Stopped,
    /// The video is at its end.
    Ended,
    /// There is no frame yet.
    Wait,
    /// These datagrams are sent; `shown` says whether the state of the session is shown after them.
    Send { datagrams: Vec<Vec<u8>>, shown: bool },
}

/// A session that sends fields.
pub struct Stream {
    pub connection: GroovyConnection,
    pub counter: FieldCounter,
    /// The line of the vertical sync.
    pub vsync: u16,
}

impl Stream {
    /// What every turn keeps.
    pub open spec fn wf(self) -> bool {
        self.connection.wf() && self.counter.wf()
    }

    /// A session in a mode that has sent nothing yet.
    pub fn new(connection: GroovyConnection, modeline: &Modeline) -> (stream: Stream)
        requires
            connection.wf(),
        ensures
            stream.wf(),
            stream == (Stream {
                connection,
                counter: FieldCounter {
                    frame_count: 0,
                    current_field: 0,
                    interlace: modeline.interlace,
                },
                vsync: modeline.v_begin,
            }),
    {
        Stream {
            connection,
            counter: FieldCounter::new(modeline.interlace),
            vsync: modeline.v_begin,
        }
    }

    /// Takes one turn; the latest frame, if there is one, is sent in compressed form.
    pub fn turn(&mut self, running: bool, ended: bool, frame: Option<&[u8]>) -> (turn: Turn)
        requires
            old(self).wf(),
            old(self).counter.frame_count < u32::MAX,
            frame matches Some(data) ==> data@.len() * 110 <= usize::MAX,
        ensures
            final(self).wf(),
            match turn {
                Turn::Stopped => !running && *final(self) == *old(self),
                Turn::Ended => running && ended && *final(self) == *old(self),
                Turn::Wait => running && !ended && frame is None && *final(self) == *old(self),
                Turn::Send { datagrams, shown } => {
                    &&& running && !ended && frame is Some
                    &&& final(self).counter == counted(old(self).counter)
                    &&& final(self).vsync == old(self).vsync
                    &&& shown == (final(self).counter.frame_count == 5
                        || final(self).counter.frame_count % 1800 == 0)
                    &&& exists|compressed: Seq<u8>|
                        {
                            &&& #[trigger] lz4::compresses(frame->0@, compressed)
                            &&& groovy::payloads(datagrams@) == connection::blit_datagrams(
                                compressed,
                                final(self).counter.frame_count,
                                old(self).counter.current_field,
                                old(self).vsync,
                                old(self).connection.mtu as int,
                            )
                            &&& final(self).connection == (GroovyConnection {
                                do_congestion: compressed.len() > connection::CONGESTION_SIZE,
                                ..old(self).connection
                            })
                        }
                },
            },
    {
        match self.counter.step(running, ended, frame.is_some()) {
            StreamStep::Stopped => Turn::Stopped,
            StreamStep::Ended => Turn::Ended,
            StreamStep::Wait => Turn::Wait,
            StreamStep::Send { frame_num, field } => match frame {
                Some(data) => {
                    let datagrams: Vec<Vec<u8>> = self.connection.blit(
                        data,
                        frame_num,
                        field,
                        self.vsync,
                    );
                    Turn::Send { datagrams, shown: self.counter.is_shown() }
                },
                None => Turn::Wait,
            },
        }
    }

    /// Takes one turn; the latest frame, if there is one, is sent as it is.
    pub fn raw_turn(&mut self, running: bool, ended: bool, frame: Option<&[u8]>) -> (turn: Turn)
        requires
            old(self).wf(),
            old(self).counter.frame_count < u32::MAX,
        ensures
            final(self).wf(),
            match turn {
                Turn::Stopped => !running && *final(self) == *old(self),
                Turn::Ended => running && ended && *final(self) == *old(self),
                Turn::Wait => running && !ended && frame is None && *final(self) == *old(self),
                Turn::Send { datagrams, shown } => {
                    &&& running && !ended && frame is Some
                    &&& *final(self) == (Stream {
                        counter: counted(old(self).counter),
                        ..*old(self)
                    })
                    &&& shown == (final(self).counter.frame_count == 5
                        || final(self).counter.frame_count % 1800 == 0)
                    &&& groovy::payloads(datagrams@) == connection::raw_datagrams(
                        frame->0@,
                        final(self).counter.frame_count,
                        old(self).counter.current_field,
                        old(self).vsync,
                        old(self).connection.mtu as int,
                    )
                },
            },
    {
        match self.counter.step(running, ended, frame.is_some()) {
            StreamStep::Stopped => Turn::Stopped,
            StreamStep::Ended => Turn::Ended,
            StreamStep::Wait => Turn::Wait,
            StreamStep::Send { frame_num, field } => match frame {
                Some(data) => {
                    let datagrams: Vec<Vec<u8>> = connection::raw_blit(
                        data,
                        frame_num,
                        field,
                        self.vsync,
                        self.connection.mtu,
                    );
                    Turn::Send { datagrams, shown: self.counter.is_shown() }
                },
                None => Turn::Wait,
            },
        }
    }
}

/// The field of a test picture that is sent next.
pub fn pick_field<'a>(
    field0: &'a Vec<u8>,
    field1: &'a Vec<u8>,
    interlace: bool,
    current_field: u8,
) -> (data: &'a Vec<u8>)
    ensures
        data == if interlace && current_field != 0 {
            field1
        } else {
            field0
        },
{
    if interlace {
        if current_field == 0 {
            field0
        } else {
            field1
        }
    } else {
        field0
    }
}

/// The shortest time between two fields, in microseconds.
pub const SHORTEST_INTERVAL_US: u64 = 8000;

/// Sends fields at regular times, in nanoseconds from some start.
#[derive(Clone, Copy, Debug, PartialEq, Eq, Structural)]
pub struct Pacer {
    pub interval_ns: u64,
    pub next_tick_ns: u64,
}

impl Pacer {
    /// The pacer after a tick: the next one is due an interval after the last, or now where that
    /// time has passed.
    pub open spec fn ticked(self, now_ns: u64) -> Pacer {
        Pacer {
            next_tick_ns: if self.next_tick_ns + self.interval_ns > now_ns {
                (self.next_tick_ns + self.interval_ns) as u64
            } else {
                now_ns
            },
            ..self
        }
    }

    /// A pacer for fields of the given time in microseconds, at a start.
    pub fn new(field_time_us: u64, now_ns: u64) -> (pacer: Pacer)
        requires
            field_time_us * 1000 <= u64::MAX,
        ensures
            pacer.next_tick_ns == now_ns,
            pacer.interval_ns == if field_time_us > SHORTEST_INTERVAL_US {
                field_time_us * 1000
            } else {
                SHORTEST_INTERVAL_US * 1000
            },
            pacer.interval_ns >= 8_000_000,
            pacer.interval_ns >= 1000 * field_time_us,
            pacer.interval_ns == 8_000_000 || pacer.interval_ns == 1000 * field_time_us,
    {
        let interval_us: u64 = if field_time_us > SHORTEST_INTERVAL_US {
            field_time_us
        } else {
            SHORTEST_INTERVAL_US
        };
        Pacer { interval_ns: interval_us * 1000, next_tick_ns: now_ns }
    }

    /// Goes on to the next tick and says how long to sleep until then. A tick that has passed
    /// already is moved to now, so that fields do not come in a burst.
    pub fn tick(&mut self, now_ns: u64) -> (sleep_ns: u64)
        requires
            old(self).next_tick_ns + old(self).interval_ns <= u64::MAX,
        ensures
            *final(self) == old(self).ticked(now_ns),
            sleep_ns == final(self).next_tick_ns - now_ns,
            now_ns + sleep_ns >= old(self).next_tick_ns + old(self).interval_ns,
            sleep_ns > 0 ==> now_ns + sleep_ns == old(self).next_tick_ns + old(self).interval_ns,
    {
        let next: u64 = self.next_tick_ns + self.interval_ns;
        if next > now_ns {
            self.next_tick_ns = next;
            next - now_ns
        } else {
            self.next_tick_ns = now_ns;
            0
        }
    }
}

/// Ticks are an interval apart or more, and none lies in the past: fields do not come in a burst.
pub proof fn law_ticks_keep_their_distance(pacer: Pacer, now_ns: u64)
    requires
        pacer.next_tick_ns + pacer.interval_ns <= u64::MAX,
    ensures
        pacer.ticked(now_ns).next_tick_ns >= pacer.next_tick_ns + pacer.interval_ns,
        pacer.ticked(now_ns).next_tick_ns >= now_ns,
{
}

/// How many bytes of sound are read at a time before it is sent: 20 ms.
pub const DISCARD_READ: usize = 3840;

/// How many bytes of sound are dropped once there is a picture: 300 ms.
pub const DISCARD_TOTAL: usize = 57600;

/// How many bytes of sound are read at a time while it is sent: 25 ms.
pub const SEND_READ: usize = 4800;

/// How the sound follows the picture: it is dropped until there is a picture, then for another
/// 300 ms, and then sent.
#[derive(Clone, Copy, Debug, PartialEq, Eq, Structural)]
pub enum AudioSync {
    /// No picture yet.
    Waiting,
    /// This many bytes were dropped since there is a picture.
    Dropping(usize),
    /// The sound is sent.
    Sending,
}

impl AudioSync {
    /// What every step keeps.
    pub open spec fn wf(self) -> bool {
        self matches AudioSync::Dropping(n) ==> n < DISCARD_TOTAL
    }

    /// Before the first read.
    pub fn start() -> (sync: AudioSync)
        ensures
            sync.wf(),
            sync == AudioSync::Waiting,
    {
        AudioSync::Waiting
    }

    /// The state before a read, where it is known whether there is a picture.
    pub open spec fn looked(self, has_picture: bool) -> AudioSync {
        if self is Waiting && has_picture {
            AudioSync::Dropping(0)
        } else {
            self
        }
    }

    /// How many bytes are read next.
    pub open spec fn wanted(self) -> int {
        match self {
            AudioSync::Waiting => DISCARD_READ as int,
            AudioSync::Dropping(n) => if DISCARD_TOTAL - n < DISCARD_READ {
                DISCARD_TOTAL - n
            } else {
                DISCARD_READ as int
            },
            AudioSync::Sending => SEND_READ as int,
        }
    }

    /// The state after a read of `n` bytes.
    pub open spec fn took(self, n: int) -> AudioSync {
        match self {
            AudioSync::Dropping(dropped) => if dropped + n < DISCARD_TOTAL {
                AudioSync::Dropping((dropped + n) as usize)
            } else {
                AudioSync::Sending
            },
            _ => self,
        }
    }

    /// Looks whether there is a picture, and says how many bytes to read at most.
    pub fn next_read(&mut self, has_picture: bool) -> (size: usize)
        requires
            old(self).wf(),
        ensures
            final(self).wf(),
            *final(self) == old(self).looked(has_picture),
            size == final(self).wanted(),
            0 < size <= SEND_READ,
    {
        if let AudioSync::Waiting = *self {
            if has_picture {
                *self = AudioSync::Dropping(0);
            }
        }
        match *self {
            AudioSync::Waiting => DISCARD_READ,
            AudioSync::Dropping(n) => if DISCARD_TOTAL - n < DISCARD_READ {
                DISCARD_TOTAL - n
            } else {
                DISCARD_READ
            },
            AudioSync::Sending => SEND_READ,
        }
    }

    /// Takes note of a read of `n` bytes, and says whether they are sent.
    pub fn took_read(&mut self, n: usize) -> (send: bool)
        requires
            old(self).wf(),
            n <= old(self).wanted(),
        ensures
            final(self).wf(),
            *final(self) == old(self).took(n as int),
            send == (*old(self) is Sending),
    {
        match *self {
            AudioSync::Waiting => false,
            AudioSync::Dropping(dropped) => {
                if dropped + n < DISCARD_TOTAL {
                    *self = AudioSync::Dropping(dropped + n);
                } else {
                    *self = AudioSync::Sending;
                }
                false
            },
            AudioSync::Sending => true,
        }
    }
}

/// The state after reads, once there is a picture.
pub open spec fn after_reads(sync: AudioSync, reads: Seq<int>) -> AudioSync
    decreases reads.len(),
{
    if reads.len() == 0 {
        sync
    } else {
        after_reads(sync, reads.drop_last()).took(reads.last())
    }
}

/// The sum of a list of sizes.
pub open spec fn total(reads: Seq<int>) -> int
    decreases reads.len(),
{
    if reads.len() == 0 {
        0
    } else {
        total(reads.drop_last()) + reads.last()
    }
}

/// Exactly 300 ms of sound are dropped once there is a picture: until the reads add up to that, none
/// is sent, and as soon as they do, every further one is.
pub proof fn law_sound_skips_300_ms(reads: Seq<int>)
    requires
        forall|i: int|
            0 <= i < reads.len() ==> 0 < #[trigger] reads[i] <= after_reads(
                AudioSync::Dropping(0),
                reads.take(i),
            ).wanted(),
    ensures
        ({
            let state = after_reads(AudioSync::Dropping(0), reads);
            &&& state.wf()
            &&& total(reads) < DISCARD_TOTAL ==> state == AudioSync::Dropping(total(reads) as usize)
            &&& total(reads) >= DISCARD_TOTAL ==> state is Sending
            &&& total(reads) >= 0
            &&& state is Sending && reads.len() > 0 && !(after_reads(
                AudioSync::Dropping(0),
                reads.drop_last(),
            ) is Sending) ==> total(reads) == DISCARD_TOTAL
        }),
    decreases reads.len(),
{
    if reads.len() > 0 {
        let rest = reads.drop_last();
        assert(reads.take(reads.len() - 1) =~= rest);
        assert forall|i: int| 0 <= i < rest.len() implies 0 < #[trigger] rest[i] <= after_reads(
            AudioSync::Dropping(0),
            rest.take(i),
        ).wanted() by {
            assert(rest.take(i) =~= reads.take(i));
            assert(rest[i] == reads[i]);
        }
        law_sound_skips_300_ms(rest);
        assert(reads.last() == reads[reads.len() - 1]);
    }
}

/// How often the position is told to the Plex server, in milliseconds.
pub const PROGRESS_INTERVAL_MS: u64 = 10_000;

/// How close to the end an item counts as watched, in milliseconds.
pub const WATCHED_MARGIN_MS: u64 = 60_000;

/// What the Plex server is told while an item is played.
pub struct PlexProgress<'a> {
    pub plex: &'a PlexClient,
    pub rating_key: u64,
    pub start_offset_ms: u64,
    pub duration_ms: u64,
}

/// What the Plex server is told at the end, as the address to call.
pub enum FinalReport {
    /// The item was watched.
    Watched(String),
    /// The item was left at this position, in seconds.
    Position { url: String, seconds: u64 },
}

/// Whether an item that was left at a position counts as watched: its length is known, and at most
/// a minute is left.
pub open spec fn is_watched(position_ms: int, duration_ms: int) -> bool {
    duration_ms > 0 && position_ms >= duration_ms - WATCHED_MARGIN_MS
}

/// An item that counts as watched at a position does so at every later one, and an item of known
/// length does so at its end.
pub proof fn law_watched_stays_watched(position_ms: int, later_ms: int, duration_ms: int)
    requires
        position_ms <= later_ms,
    ensures
        is_watched(position_ms, duration_ms) ==> is_watched(later_ms, duration_ms),
        duration_ms > 0 ==> is_watched(duration_ms, duration_ms),
{
}

impl<'a> PlexProgress<'a> {
    /// The position after some time of playing.
    pub open spec fn position(self, elapsed_ms: u64) -> int {
        self.start_offset_ms + elapsed_ms
    }

    /// The address to call while the item is played, where the last call is `since_last_ms` ago:
    /// none before ten seconds have passed.
    pub fn report(&self, elapsed_ms: u64, since_last_ms: u64) -> (url: Option<String>)
        requires
            self.position(elapsed_ms) <= u64::MAX,
        ensures
            match url {
                Some(u) => {
                    &&& since_last_ms >= PROGRESS_INTERVAL_MS
                    &&& u@ == self.plex.progress_url(
                        self.rating_key,
                        self.position(elapsed_ms) as u64,
                        "playing"@,
                        self.duration_ms,
                    )
                },
                None => since_last_ms < PROGRESS_INTERVAL_MS,
            },
            url is Some <==> since_last_ms >= 10_000,
    {
        if since_last_ms < PROGRESS_INTERVAL_MS {
            return None;
        }
        let position_ms: u64 = self.start_offset_ms + elapsed_ms;
        Some(
            self.plex.report_progress(self.rating_key, position_ms, "playing", self.duration_ms),
        )
    }

    /// What to tell at the end.
    pub fn finish(&self, elapsed_ms: u64) -> (report: FinalReport)
        requires
            self.position(elapsed_ms) <= u64::MAX,
        ensures
            match report {
                FinalReport::Watched(url) => {
                    &&& is_watched(self.position(elapsed_ms), self.duration_ms as int)
                    &&& url@ == self.plex.path_url(
                        "/:/scrobble?identifier=com.plexapp.plugins.library&key="@ + text::decimal(
                            self.rating_key as nat,
                        ),
                    )
                },
                FinalReport::Position { url, seconds } => {
                    &&& !is_watched(self.position(elapsed_ms), self.duration_ms as int)
                    &&& seconds == self.position(elapsed_ms) / 1000
                    &&& url@ == self.plex.progress_url(
                        self.rating_key,
                        self.position(elapsed_ms) as u64,
                        "stopped"@,
                        self.duration_ms,
                    )
                },
            },
            self.duration_ms - (self.start_offset_ms + elapsed_ms) > 60_000 ==> report is Position,
            self.duration_ms > 0 && self.duration_ms - (self.start_offset_ms + elapsed_ms)
                <= 60_000 ==> report is Watched,
            self.duration_ms == 0 ==> report is Position,
            report matches FinalReport::Position { seconds, .. } ==> 0 <= self.start_offset_ms
                + elapsed_ms - 1000 * seconds < 1000,
    {
        let position_ms: u64 = self.start_offset_ms + elapsed_ms;
        let margin: u64 = if self.duration_ms > WATCHED_MARGIN_MS {
            self.duration_ms - WATCHED_MARGIN_MS
        } else {
            0
        };
        if self.duration_ms > 0 && position_ms >= margin {
            FinalReport::Watched(self.plex.scrobble(self.rating_key))
        } else {
            FinalReport::Position {
                url: self.plex.report_progress(
                    self.rating_key,
                    position_ms,
                    "stopped",
                    self.duration_ms,
                ),
                seconds: position_ms / 1000,
            }
        }
    }
}

/// An item of known length that is left with more than a minute to its end does not count as
/// watched, however long it is; one that is left with a minute or less does, and so does one that
/// was played beyond its end. An item of unknown length never does.
pub proof fn law_last_minute_counts_as_watched(position_ms: int, duration_ms: int)
    ensures
        duration_ms - position_ms > 60_000 ==> !is_watched(position_ms, duration_ms),
        duration_ms > 0 && duration_ms - position_ms <= 60_000 ==> is_watched(
            position_ms,
            duration_ms,
        ),
        duration_ms <= 0 ==> !is_watched(position_ms, duration_ms),
{
}

/// A position that is asked for holds wherever the item was left; else the item goes on where it was
/// left, and an item that was left at its start is played from there.
pub proof fn law_asked_position_holds(secs: Double, left_ms: u64, other_ms: u64)
    ensures
        start(Some(secs), left_ms) == start(Some(secs), other_ms),
        start(Some(secs), left_ms).seconds() == Seek::Secs(secs).seconds(),
        start(Some(secs), left_ms).ahead() == Seek::Secs(secs).ahead(),
        start(None, left_ms).ahead() <==> left_ms > 0,
        start(None, left_ms).seconds() == Seek::Millis(left_ms).seconds(),
        start(None, left_ms) == start(None, other_ms) ==> left_ms == other_ms,
{
}

/// A field that is sent is counted once, in an interlaced mode the other field comes next, and the
/// mode stays; whoever stops, ends or waits changes nothing.
pub proof fn law_sent_field_is_counted(counter: FieldCounter)
    requires
        counter.wf(),
        counter.frame_count < u32::MAX,
    ensures
        counted(counter).wf(),
        counted(counter).frame_count == counter.frame_count + 1,
        counted(counter).interlace == counter.interlace,
        counter.interlace ==> counted(counter).current_field != counter.current_field,
        counter.interlace ==> counted(counter).current_field + counter.current_field == 1,
        !counter.interlace ==> counted(counter).current_field == 0,
{
}

/// A field is sent just where the loop runs, the video goes on and there is a frame; being stopped
/// goes before the end, and the end before a frame that is missing.
pub proof fn law_loop_stops_first(counter: FieldCounter, running: bool, ended: bool, has_frame: bool)
    ensures
        counter.next(running, ended, has_frame) is Send <==> running && !ended && has_frame,
        counter.next(running, ended, has_frame) is Stopped <==> !running,
        counter.next(running, ended, has_frame) is Ended <==> running && ended,
        counter.next(running, ended, has_frame) is Wait <==> running && !ended && !has_frame,
{
}

/// A tick that is not late is exactly an interval after the last, so that the times do not drift;
/// after one that is late the next is due at once. The interval stays.
pub proof fn law_ticks_do_not_drift(pacer: Pacer, now_ns: u64)
    requires
        pacer.next_tick_ns + pacer.interval_ns <= u64::MAX,
    ensures
        pacer.ticked(now_ns).interval_ns == pacer.interval_ns,
        now_ns <= pacer.next_tick_ns + pacer.interval_ns ==> pacer.ticked(now_ns).next_tick_ns
            == pacer.next_tick_ns + pacer.interval_ns,
        now_ns >= pacer.next_tick_ns + pacer.interval_ns ==> pacer.ticked(now_ns).next_tick_ns
            == now_ns,
{
}

/// As long as there is no picture no sound is kept back for later and none is sent; with the picture
/// the dropping begins from nothing, and only once.
pub proof fn law_sound_waits_for_the_picture(n: int, has_picture: bool, sync: AudioSync)
    requires
        sync.wf(),
    ensures
        AudioSync::Waiting.looked(false) == AudioSync::Waiting,
        AudioSync::Waiting.looked(true) == AudioSync::Dropping(0),
        AudioSync::Waiting.took(n) == AudioSync::Waiting,
        !(sync is Waiting) ==> sync.looked(has_picture) == sync,
        AudioSync::Sending.took(n) == AudioSync::Sending,
{
}

/// The sound that is dropped is 300 ms of 16-bit stereo at 48 kHz, and no read goes beyond it: what
/// is read while sound is dropped is at most 20 ms and never more than is left to drop, and what is
/// read to be sent is 25 ms.
pub proof fn law_reads_end_with_the_dropping(sync: AudioSync)
    requires
        sync.wf(),
    ensures
        DISCARD_TOTAL == 48_000 * 4 * 300 / 1000,
        0 < sync.wanted(),
        sync matches AudioSync::Dropping(n) ==> n + sync.wanted() <= 57_600 && sync.wanted()
            <= 3840,
        sync matches AudioSync::Dropping(n) ==> n + sync.wanted() == 57_600 || sync.wanted()
            == 3840,
        sync is Waiting ==> sync.wanted() == 3840,
        sync is Sending ==> sync.wanted() == 4800,
{
}

/// The track of a local file is the one whose number is given, and the first where none is; a text
/// that is no number up to 32 bits asks for no subtitles.
pub proof fn law_track_is_the_number_given(n: nat, other: Seq<char>)
    ensures
        file_track(None) == Some(0int),
        n <= u32::MAX ==> file_track(Some(text::decimal(n))) == Some(n as int),
        n > u32::MAX ==> file_track(Some(text::decimal(n))) is None,
        file_track(Some("off"@)) is None,
        file_track(Some("none"@)) is None,
        text::number_value(other, 10, 0xffff_ffff) is None ==> file_track(Some(other)) is None,
{
    let s = text::decimal(n);
    text::lemma_numeral_value(n);
    text::law_numeral_has_no_leading_zero(n);
    reveal_strlit("none");
    reveal_strlit("off");
    text::law_case_is_ignored(s, "none"@);
    text::law_case_is_ignored("none"@, "none"@);
    assert('0' <= s[0] <= '9');
    if text::same_ignoring_case(s, "none"@) {
        assert(s[0] == "none"@[0] || s[0] != "none"@[0]);
    }
    if s == "off"@ {
        assert(s[0] == 'o');
    }
}

/// Subtitles in the formats `ass` and `ssa` are written as such, and all others as `srt`.
pub proof fn law_two_formats_are_kept(codec: Seq<char>)
    ensures
        is_ass("ass"@),
        is_ass("ssa"@),
        codec != "ass"@ && codec != "ssa"@ ==> !is_ass(codec),
{
}

/// The position is where playing began and what was played since.
pub proof fn law_position_goes_on(progress: PlexProgress<'_>, first_ms: u64, more_ms: u64)
    requires
        first_ms + more_ms <= u64::MAX,
    ensures
        progress.position(0) == progress.start_offset_ms,
        progress.position((first_ms + more_ms) as u64) == progress.position(first_ms) + more_ms,
{
}

} // verus!
