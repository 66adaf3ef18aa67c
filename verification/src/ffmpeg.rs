//! FFmpeg: where it is, what it is called with, and how its output becomes frames.

use crate::bytes;
use crate::decimals;
use crate::double;
use crate::double::Double;
use crate::text;
use vstd::prelude::*;
use vstd::string::*;

verus! {

/// Where playing starts: at a number of seconds, or at a number of milliseconds.
#[derive(Clone, Copy, Debug, PartialEq, Eq, Structural)]
pub enum Seek {
    Secs(Double),
    Millis(u64),
}

impl Seek {
    /// Whether this is after the start.
    pub open spec fn ahead(self) -> bool {
        match self {
            Seek::Secs(secs) => (Double { bits: 0 }).less(secs),
            Seek::Millis(ms) => ms > 0,
        }
    }

    /// This position in seconds, with three decimals.
    pub open spec fn seconds(self) -> Seq<char> {
        match self {
            Seek::Secs(secs) => decimals::fixed(secs, 3),
            Seek::Millis(ms) => decimals::with_decimals(ms as nat, 3),
        }
    }

    /// Whether this is after the start.
    pub fn is_ahead(self) -> (yes: bool)
        ensures
            yes == self.ahead(),
    {
        match self {
            Seek::Secs(secs) => secs.is_positive(),
            Seek::Millis(ms) => ms > 0,
        }
    }

    /// This position in seconds, with three decimals.
    pub fn to_seconds(self) -> (words: String)
        ensures
            words@ == self.seconds(),
    {
        let mut words: String = String::new();
        match self {
            Seek::Secs(secs) => {
                decimals::push_fixed(&mut words, secs, 3);
            },
            Seek::Millis(ms) => {
                decimals::push_millis(&mut words, ms);
            },
        }
        assert(words@ =~= self.seconds());
        words
    }
}

/// What is to be played and how.
pub struct VideoParams {
    pub url: String,
    pub seek: Seek,
    pub sub_path: Option<String>,
    pub audio_map: String,
    pub w: usize,
    pub ffmpeg_h: usize,
    pub ffmpeg_fps: Double,
    pub scale: Double,
}

/// FFmpeg was not found.
#[derive(Clone, Copy, Debug, PartialEq, Eq, Structural)]
pub struct FfmpegNotFound;

impl FfmpegNotFound {
    /// The error in words.
    pub fn message(&self) -> (words: String)
        ensures
            words@ == "FFmpeg not found. Install with: brew install ffmpeg"@,
    {
        "FFmpeg not found. Install with: brew install ffmpeg".to_string()
    }
}

/// Where FFmpeg is looked for.
pub open spec fn usual_places() -> Seq<Seq<char>> {
    seq!["/opt/homebrew/bin/ffmpeg"@, "/usr/local/bin/ffmpeg"@, "/usr/bin/ffmpeg"@]
}

/// Where FFmpeg is looked for, in this order.
pub fn places() -> (list: Vec<String>)
    ensures
        text::texts(list@) == usual_places(),
{
    let mut list: Vec<String> = Vec::new();
    text::push_text(&mut list, "/opt/homebrew/bin/ffmpeg");
    text::push_text(&mut list, "/usr/local/bin/ffmpeg");
    text::push_text(&mut list, "/usr/bin/ffmpeg");
    assert(text::texts(list@) =~= usual_places());
    list
}

/// The path that the output of `which` gives.
pub open spec fn which_path(output: Seq<u8>) -> Seq<char> {
    text::trimmed_end(text::trimmed_start(text::text_of(output)))
}

/// The first of the usual places where there is a file.
pub open spec fn first_place(found: Seq<bool>) -> Option<Seq<char>> {
    if found[0] {
        Some(usual_places()[0])
    } else if found[1] {
        Some(usual_places()[1])
    } else if found[2] {
        Some(usual_places()[2])
    } else {
        None
    }
}

/// The path of FFmpeg: what `which` printed where it succeeded, else the first of the usual places
/// where there is a file. `found` says of each place whether there is one.
pub fn find_ffmpeg(which: Option<&[u8]>, found: &Vec<bool>) -> (path: Result<String, FfmpegNotFound>)
    requires
        found@.len() == usual_places().len(),
    ensures
        match path {
            Ok(p) => if which matches Some(output) && which_path(output@).len() > 0 {
                p@ == which_path(which->0@)
            } else {
                first_place(found@) == Some(p@)
            },
            Err(_) => {
                &&& which matches Some(output) ==> which_path(output@).len() == 0
                &&& first_place(found@) is None
            },
        },
{
    if let Some(output) = which {
        let printed: String = text::read_text(output);
        let path: String = text::trim(printed.as_str());
        if !text::is_empty(path.as_str()) {
            return Ok(path);
        }
    }
    let list: Vec<String> = places();
    let ghost names = text::texts(list@);
    if found[0] {
        assert(names[0] == list@[0]@);
        return Ok(list[0].clone());
    }
    if found[1] {
        assert(names[1] == list@[1]@);
        return Ok(list[1].clone());
    }
    if found[2] {
        assert(names[2] == list@[2]@);
        return Ok(list[2].clone());
    }
    Err(FfmpegNotFound)
}

/// The arguments that start at a position: none at the start.
pub open spec fn seek_args(seek: Seek) -> Seq<Seq<char>> {
    if seek.ahead() {
        seq!["-ss"@, seek.seconds()]
    } else {
        seq![]
    }
}

fn push_seek(args: &mut Vec<String>, seek: Seek)
    ensures
        text::texts(final(args)@) == text::texts(old(args)@) + seek_args(seek),
{
    if seek.is_ahead() {
        text::push_text(args, "-ss");
        let seconds: String = seek.to_seconds();
        text::push_text(args, seconds.as_str());
    }
    assert(text::texts(args@) =~= text::texts(old(args)@) + seek_args(seek));
}

/// The arguments that write a subtitle stream to a file.
pub open spec fn subtitle_args(
    url: Seq<char>,
    sub_map: Seq<char>,
    seek: Seek,
    path: Seq<char>,
) -> Seq<Seq<char>> {
    seek_args(seek) + seq![
        "-i"@,
        url,
        "-map"@,
        sub_map,
        "-y"@,
        "-v"@,
        "error"@,
        path,
    ]
}

/// The arguments that write a subtitle stream to a file.
pub fn extract_subs(
    url: &str,
    sub_map: &str,
    seek: Seek,
    path: &str,
) -> (args: Vec<String>)
    ensures
        text::texts(args@) == subtitle_args(url@, sub_map@, seek, path@),
{
    let mut args: Vec<String> = Vec::new();
    push_seek(&mut args, seek);
    text::push_text(&mut args, "-i");
    text::push_text(&mut args, url);
    text::push_text(&mut args, "-map");
    text::push_text(&mut args, sub_map);
    text::push_text(&mut args, "-y");
    text::push_text(&mut args, "-v");
    text::push_text(&mut args, "error");
    text::push_text(&mut args, path);
    assert(text::texts(args@) =~= subtitle_args(url@, sub_map@, seek, path@));
    args
}

/// The numeral of a size.
pub open spec fn num(n: int) -> Seq<char> {
    text::decimal(n as nat)
}

impl VideoParams {
    /// The width of the picture inside the frame.
    pub open spec fn picture_w(self) -> int {
        double::scaled_even(self.w as nat, self.scale) as int
    }

    /// The height of the picture inside the frame.
    pub open spec fn picture_h(self) -> int {
        double::scaled_even(self.ffmpeg_h as nat, self.scale) as int
    }

    /// Whether the picture is smaller than the frame.
    pub open spec fn is_scaled(self) -> bool {
        self.scale.less(Double { bits: double::ONE })
    }

    /// The filter step that scales the picture.
    pub open spec fn scale_step(self) -> Seq<char> {
        "[0:v:0]scale="@ + num(self.picture_w()) + ":"@ + num(self.picture_h()) + "[v];"@
    }

    /// The filter step that draws the subtitles of a file into the picture.
    pub open spec fn subtitle_step(self, path: Seq<char>) -> Seq<char> {
        "[v]subtitles=filename="@ + path + ":original_size="@ + num(self.picture_w()) + "x"@ + num(
            self.picture_h(),
        ) + "[s];"@
    }

    /// The filter step that puts the picture into the middle of a black frame.
    pub open spec fn pad_step(self, input: Seq<char>) -> Seq<char> {
        input + "pad="@ + num(self.w as int) + ":"@ + num(self.ffmpeg_h as int) + ":"@ + num(
            (self.w - self.picture_w()) / 2,
        ) + ":"@ + num((self.ffmpeg_h - self.picture_h()) / 2) + ":black[out]"@
    }

    /// The arguments that shape the picture: with subtitles it is scaled, drawn on and padded; a
    /// smaller picture without is scaled and padded; else it has the size of the frame.
    pub open spec fn picture_args(self) -> Seq<Seq<char>> {
        match self.sub_path {
            Some(path) => seq![
                "-filter_complex"@,
                self.scale_step() + self.subtitle_step(path@) + self.pad_step("[s]"@),
                "-map"@,
                "[out]"@,
            ],
            None => if self.is_scaled() {
                seq![
                    "-filter_complex"@,
                    self.scale_step() + self.pad_step("[v]"@),
                    "-map"@,
                    "[out]"@,
                ]
            } else {
                seq![
                    "-map"@,
                    "0:v:0"@,
                    "-s"@,
                    num(self.w as int) + "x"@ + num(self.ffmpeg_h as int),
                ]
            },
        }
    }

    /// The arguments that decode the video into frames of three bytes to a pixel.
    pub open spec fn video_args(self) -> Seq<Seq<char>> {
        seq!["-re"@] + seek_args(self.seek) + seq!["-i"@, self.url@]
            + self.picture_args() + seq![
            "-f"@,
            "rawvideo"@,
            "-pix_fmt"@,
            "bgr24"@,
            "-r"@,
            decimals::fixed(self.ffmpeg_fps, 4),
            "-vsync"@,
            "cfr"@,
            "-v"@,
            "error"@,
            "-nostdin"@,
            "pipe:1"@,
        ]
    }

    /// Whether the picture fits into the frame.
    pub open spec fn fits(self) -> bool {
        self.picture_w() <= self.w && self.picture_h() <= self.ffmpeg_h
    }

    fn push_scale_step(&self, out: &mut String, picture_w: usize, picture_h: usize)
        requires
            picture_w == self.picture_w(),
            picture_h == self.picture_h(),
        ensures
            final(out)@ == old(out)@ + self.scale_step(),
    {
        out.append("[0:v:0]scale=");
        text::push_decimal(out, picture_w as u64);
        out.append(":");
        text::push_decimal(out, picture_h as u64);
        out.append("[v];");
        assert(out@ =~= old(out)@ + self.scale_step());
    }

    fn push_subtitle_step(&self, out: &mut String, path: &str, picture_w: usize, picture_h: usize)
        requires
            picture_w == self.picture_w(),
            picture_h == self.picture_h(),
        ensures
            final(out)@ == old(out)@ + self.subtitle_step(path@),
    {
        out.append("[v]subtitles=filename=");
        out.append(path);
        out.append(":original_size=");
        text::push_decimal(out, picture_w as u64);
        out.append("x");
        text::push_decimal(out, picture_h as u64);
        out.append("[s];");
        assert(out@ =~= old(out)@ + self.subtitle_step(path@));
    }

    fn push_pad_step(&self, out: &mut String, input: &str, picture_w: usize, picture_h: usize)
        requires
            self.fits(),
            picture_w == self.picture_w(),
            picture_h == self.picture_h(),
        ensures
            final(out)@ == old(out)@ + self.pad_step(input@),
    {
        out.append(input);
        out.append("pad=");
        text::push_decimal(out, self.w as u64);
        out.append(":");
        text::push_decimal(out, self.ffmpeg_h as u64);
        out.append(":");
        text::push_decimal(out, ((self.w - picture_w) / 2) as u64);
        out.append(":");
        text::push_decimal(out, ((self.ffmpeg_h - picture_h) / 2) as u64);
        out.append(":black[out]");
        assert(out@ =~= old(out)@ + self.pad_step(input@));
    }

    fn push_picture(&self, args: &mut Vec<String>)
        requires
            self.fits(),
        ensures
            text::texts(final(args)@) == text::texts(old(args)@) + self.picture_args(),
    {
        let picture_w: usize = double::scale_even(self.w, self.scale);
        let picture_h: usize = double::scale_even(self.ffmpeg_h, self.scale);
        let mut filter: String = String::new();
        if let Some(path) = &self.sub_path {
            self.push_scale_step(&mut filter, picture_w, picture_h);
            self.push_subtitle_step(&mut filter, path.as_str(), picture_w, picture_h);
            self.push_pad_step(&mut filter, "[s]", picture_w, picture_h);
            assert(filter@ =~= self.scale_step() + self.subtitle_step(path@) + self.pad_step(
                "[s]"@,
            ));
            text::push_text(args, "-filter_complex");
            text::push_text(args, filter.as_str());
            text::push_text(args, "-map");
            text::push_text(args, "[out]");
        } else if self.scale.less_than(Double { bits: double::ONE }) {
            self.push_scale_step(&mut filter, picture_w, picture_h);
            self.push_pad_step(&mut filter, "[v]", picture_w, picture_h);
            assert(filter@ =~= self.scale_step() + self.pad_step("[v]"@));
            text::push_text(args, "-filter_complex");
            text::push_text(args, filter.as_str());
            text::push_text(args, "-map");
            text::push_text(args, "[out]");
        } else {
            text::push_decimal(&mut filter, self.w as u64);
            filter.append("x");
            text::push_decimal(&mut filter, self.ffmpeg_h as u64);
            assert(filter@ =~= num(self.w as int) + "x"@ + num(self.ffmpeg_h as int));
            text::push_text(args, "-map");
            text::push_text(args, "0:v:0");
            text::push_text(args, "-s");
            text::push_text(args, filter.as_str());
        }
        assert(text::texts(args@) =~= text::texts(old(args)@) + self.picture_args());
    }
}

/// The arguments that decode the video.
pub fn build_video_args(p: &VideoParams) -> (args: Vec<String>)
    requires
        p.fits(),
    ensures
        text::texts(args@) == p.video_args(),
{
    let mut args: Vec<String> = Vec::new();
    text::push_text(&mut args, "-re");
    assert(text::texts(args@) =~= seq!["-re"@]);
    push_seek(&mut args, p.seek);
    text::push_text(&mut args, "-i");
    text::push_text(&mut args, p.url.as_str());
    assert(text::texts(args@) =~= seq!["-re"@] + seek_args(p.seek) + seq![
        "-i"@,
        p.url@,
    ]);
    p.push_picture(&mut args);
    text::push_text(&mut args, "-f");
    text::push_text(&mut args, "rawvideo");
    text::push_text(&mut args, "-pix_fmt");
    text::push_text(&mut args, "bgr24");
    text::push_text(&mut args, "-r");
    let mut fps: String = String::new();
    decimals::push_fixed(&mut fps, p.ffmpeg_fps, 4);
    assert(fps@ =~= decimals::fixed(p.ffmpeg_fps, 4));
    text::push_text(&mut args, fps.as_str());
    text::push_text(&mut args, "-vsync");
    text::push_text(&mut args, "cfr");
    text::push_text(&mut args, "-v");
    text::push_text(&mut args, "error");
    text::push_text(&mut args, "-nostdin");
    text::push_text(&mut args, "pipe:1");
    assert(text::texts(args@) =~= p.video_args());
    args
}

/// The arguments that decode the sound into 16-bit stereo at 48 kHz.
pub open spec fn audio_args(
    url: Seq<char>,
    audio_map: Seq<char>,
    seek: Seek,
) -> Seq<Seq<char>> {
    seq!["-re"@] + seek_args(seek) + seq![
        "-i"@,
        url,
        "-map"@,
        audio_map,
        "-ac"@,
        "2"@,
        "-ar"@,
        "48000"@,
        "-f"@,
        "s16le"@,
        "-acodec"@,
        "pcm_s16le"@,
        "-v"@,
        "warning"@,
        "-nostdin"@,
        "pipe:1"@,
    ]
}

/// The arguments that decode the sound.
pub fn build_audio_args(
    url: &str,
    audio_map: &str,
    seek: Seek,
) -> (args: Vec<String>)
    ensures
        text::texts(args@) == audio_args(url@, audio_map@, seek),
{
    let mut args: Vec<String> = Vec::new();
    text::push_text(&mut args, "-re");
    push_seek(&mut args, seek);
    text::push_text(&mut args, "-i");
    text::push_text(&mut args, url);
    text::push_text(&mut args, "-map");
    text::push_text(&mut args, audio_map);
    text::push_text(&mut args, "-ac");
    text::push_text(&mut args, "2");
    text::push_text(&mut args, "-ar");
    text::push_text(&mut args, "48000");
    text::push_text(&mut args, "-f");
    text::push_text(&mut args, "s16le");
    text::push_text(&mut args, "-acodec");
    text::push_text(&mut args, "pcm_s16le");
    text::push_text(&mut args, "-v");
    text::push_text(&mut args, "warning");
    text::push_text(&mut args, "-nostdin");
    text::push_text(&mut args, "pipe:1");
    assert(text::texts(args@) =~= audio_args(url@, audio_map@, seek));
    args
}

/// Cuts the bytes that FFmpeg writes into frames of one size.
pub struct FrameAssembler {
    pub frame_size: usize,
    /// The part of the next frame that is there.
    pub part: Vec<u8>,
}

impl FrameAssembler {
    /// What every chunk keeps: the part is short of a frame.
    pub open spec fn wf(self) -> bool {
        self.part@.len() < self.frame_size
    }

    /// An assembler with nothing in it.
    pub fn new(frame_size: usize) -> (assembler: FrameAssembler)
        requires
            frame_size > 0,
        ensures
            assembler.wf(),
            assembler.frame_size == frame_size,
            assembler.part@ == Seq::<u8>::empty(),
    {
        FrameAssembler { frame_size, part: Vec::new() }
    }

    /// How many bytes are missing from the next frame.
    pub fn room(&self) -> (room: usize)
        requires
            self.wf(),
        ensures
            room == self.frame_size - self.part@.len(),
            room > 0,
    {
        self.frame_size - self.part.len()
    }

    /// Takes bytes, at most as many as are missing, and gives the frame that they complete.
    pub fn add(&mut self, chunk: &[u8]) -> (frame: Option<Vec<u8>>)
        requires
            old(self).wf(),
            old(self).part@.len() + chunk@.len() <= old(self).frame_size,
        ensures
            final(self).wf(),
            final(self).frame_size == old(self).frame_size,
            match frame {
                Some(f) => {
                    &&& old(self).part@.len() + chunk@.len() == old(self).frame_size
                    &&& f@ == old(self).part@ + chunk@
                    &&& final(self).part@ == Seq::<u8>::empty()
                },
                None => {
                    &&& old(self).part@.len() + chunk@.len() < old(self).frame_size
                    &&& final(self).part@ == old(self).part@ + chunk@
                },
            },
            assembled(old(self).frame_size as int, old(self).part@, seq![chunk@]) == (
                final(self).part@,
                match frame {
                    Some(f) => seq![f@],
                    None => Seq::<Seq<u8>>::empty(),
                },
            ),
    {
        proof {
            reveal_with_fuel(assembled, 2);
            assert(seq![chunk@].drop_last() =~= seq![]);
            assert(Seq::<Seq<u8>>::empty().push(self.part@ + chunk@) =~= seq![self.part@ + chunk@]);
        }
        bytes::push_all(&mut self.part, chunk);
        if self.part.len() == self.frame_size {
            let frame: Vec<u8> = bytes::copy_range(self.part.as_slice(), 0, self.part.len());
            assert(frame@ =~= self.part@);
            self.part = Vec::new();
            assert(self.part@ =~= seq![]);
            Some(frame)
        } else {
            None
        }
    }
}

/// At a scale of at most one the picture fits into the frame.
pub proof fn law_picture_fits(p: VideoParams)
    requires
        p.w <= double::PRECISION,
        p.ffmpeg_h <= double::PRECISION,
        !p.scale.is_nan(),
        !(Double { bits: double::ONE }).less(p.scale),
    ensures
        p.fits(),
{
    double::law_scaling_shrinks(p.w as nat, p.scale);
    double::law_scaling_shrinks(p.ffmpeg_h as nat, p.scale);
}

/// The picture stands in the middle of the frame: the margins on two sides differ by one at most.
pub proof fn law_picture_is_centred(p: VideoParams)
    requires
        p.fits(),
    ensures
        ({
            let left = (p.w - p.picture_w()) / 2;
            let top = (p.ffmpeg_h - p.picture_h()) / 2;
            &&& 0 <= (p.w - p.picture_w() - left) - left <= 1
            &&& 0 <= (p.ffmpeg_h - p.picture_h() - top) - top <= 1
        }),
{
}

/// The state and the frames after chunks were added one by one.
pub open spec fn assembled(size: int, part: Seq<u8>, chunks: Seq<Seq<u8>>) -> (Seq<u8>, Seq<Seq<u8>>)
    decreases chunks.len(),
{
    if chunks.len() == 0 {
        (part, seq![])
    } else {
        let (before, frames) = assembled(size, part, chunks.drop_last());
        let joined = before + chunks.last();
        if joined.len() == size {
            (seq![], frames.push(joined))
        } else {
            (joined, frames)
        }
    }
}

/// The bytes of a list of chunks.
pub open spec fn flat(chunks: Seq<Seq<u8>>) -> Seq<u8>
    decreases chunks.len(),
{
    if chunks.len() == 0 {
        seq![]
    } else {
        flat(chunks.drop_last()) + chunks.last()
    }
}

proof fn lemma_flat_push(frames: Seq<Seq<u8>>, frame: Seq<u8>)
    ensures
        flat(frames.push(frame)) == flat(frames) + frame,
{
    assert(frames.push(frame).drop_last() =~= frames);
}

/// However the bytes are cut into chunks, the frames hold them in order, each frame in full, and the
/// part holds the rest.
pub proof fn law_frames_hold_stream(size: int, chunks: Seq<Seq<u8>>)
    requires
        size > 0,
        forall|i: int|
            0 <= i < chunks.len() ==> assembled(size, seq![], #[trigger] chunks.take(i)).0.len()
                + chunks[i].len() <= size,
    ensures
        ({
            let (part, frames) = assembled(size, seq![], chunks);
            &&& flat(frames) + part == flat(chunks)
            &&& part.len() < size
            &&& forall|i: int| 0 <= i < frames.len() ==> (#[trigger] frames[i]).len() == size
        }),
    decreases chunks.len(),
{
    if chunks.len() == 0 {
        assert(flat(Seq::<Seq<u8>>::empty()) + Seq::<u8>::empty() =~= Seq::<u8>::empty());
    } else {
        let rest = chunks.drop_last();
        let last = chunks.last();
        assert(chunks.take(chunks.len() - 1) =~= rest);
        assert forall|i: int| 0 <= i < rest.len() implies assembled(
            size,
            seq![],
            #[trigger] rest.take(i),
        ).0.len() + rest[i].len() <= size by {
            assert(rest.take(i) =~= chunks.take(i));
            assert(rest[i] == chunks[i]);
        }
        law_frames_hold_stream(size, rest);
        let (before, frames) = assembled(size, seq![], rest);
        let joined = before + last;
        lemma_flat_push(frames, joined);
        assert(flat(frames) + joined =~= flat(rest) + last);
        assert(flat(frames.push(joined)) + Seq::<u8>::empty() =~= flat(rest) + last);
    }
}

/// Whether arguments hold an option with a value: the two side by side.
pub open spec fn gives(args: Seq<Seq<char>>, option: Seq<char>, value: Seq<char>) -> bool {
    exists|i: int|
        0 <= i < args.len() - 1 && #[trigger] args[i] == option && args[i + 1] == value
}

/// Whether arguments read an input from the very start: nothing but `-re` stands before it.
pub open spec fn reads_from_start(args: Seq<Seq<char>>, input: Seq<char>) -> bool {
    exists|i: int|
        {
            &&& 0 <= i < args.len() - 1
            &&& #[trigger] args[i] == "-i"@
            &&& args[i + 1] == input
            &&& forall|j: int| 0 <= j < i ==> #[trigger] args[j] == "-re"@
        }
}

/// Whether arguments read an input from a position on: `-ss` and the position stand right before it.
pub open spec fn reads_from(args: Seq<Seq<char>>, position: Seq<char>, input: Seq<char>) -> bool {
    exists|i: int|
        {
            &&& 0 <= i < args.len() - 3
            &&& #[trigger] args[i] == "-ss"@
            &&& args[i + 1] == position
            &&& args[i + 2] == "-i"@
            &&& args[i + 3] == input
            &&& forall|j: int| 0 <= j < i ==> #[trigger] args[j] == "-re"@
        }
}

/// Picture, sound and subtitles start at the same place, with or without subtitles and at every
/// scale: at the position where there is one after the start, else at the start.
pub proof fn law_all_start_at_one_place(p: VideoParams, sub_map: Seq<char>, path: Seq<char>)
    ensures
        ({
            let video = p.video_args();
            let audio = audio_args(p.url@, p.audio_map@, p.seek);
            let subs = subtitle_args(p.url@, sub_map, p.seek, path);
            if p.seek.ahead() {
                &&& reads_from(video, p.seek.seconds(), p.url@)
                &&& reads_from(audio, p.seek.seconds(), p.url@)
                &&& reads_from(subs, p.seek.seconds(), p.url@)
            } else {
                &&& reads_from_start(video, p.url@)
                &&& reads_from_start(audio, p.url@)
                &&& reads_from_start(subs, p.url@)
            }
        }),
{
    let video = p.video_args();
    let audio = audio_args(p.url@, p.audio_map@, p.seek);
    let subs = subtitle_args(p.url@, sub_map, p.seek, path);
    assert(video[0] == "-re"@ && audio[0] == "-re"@);
    if p.seek.ahead() {
        assert(video[1] == "-ss"@ && video[2] == p.seek.seconds() && video[3] == "-i"@);
        assert(audio[1] == "-ss"@ && audio[2] == p.seek.seconds() && audio[3] == "-i"@);
        assert(subs[0] == "-ss"@ && subs[1] == p.seek.seconds() && subs[2] == "-i"@);
    } else {
        assert(video[1] == "-i"@ && video[2] == p.url@);
        assert(audio[1] == "-i"@ && audio[2] == p.url@);
        assert(subs[0] == "-i"@ && subs[1] == p.url@);
    }
}

/// A position counts as after the start just where it is above zero, and what is no number does not.
pub proof fn law_positions_above_zero_are_ahead(secs: Double, ms: u64)
    ensures
        Seek::Secs(secs).ahead() <==> 0 < secs.bits <= double::INFINITY,
        Seek::Millis(ms).ahead() <==> ms > 0,
{
}

/// Milliseconds are given in seconds with three decimals, none of them lost: the digits before the
/// point are whole seconds, and together with the three behind it they spell the milliseconds.
pub proof fn law_milliseconds_are_kept(ms: u64)
    ensures
        ({
            let words = Seek::Millis(ms).seconds();
            let n = words.len() - 4;
            &&& n > 0
            &&& words[n] == '.'
            &&& text::digits_value(words.take(n), 10) == Some(ms as int / 1000)
            &&& text::digits_value(words.take(n) + words.skip(n + 1), 10) == Some(ms as int)
        }),
{
    let words = Seek::Millis(ms).seconds();
    decimals::law_decimals_lose_nothing(ms as nat, 3);
    reveal_strlit(".");
    reveal_with_fuel(decimals::tens, 4);
    let whole = text::decimal(ms as nat / 1000);
    let rest = decimals::padded(ms as nat % 1000, 3);
    text::lemma_numeral_value(ms as nat / 1000);
    assert(words == whole + "."@ + rest);
    let n = words.len() - 4;
    assert(words.take(n) =~= whole);
    assert(words.skip(n + 1) =~= rest);
}

/// The picture comes as raw frames of three bytes to a pixel, at a constant rate, on the output; the
/// rate is the one that is asked for, to the nearest with four decimals.
pub proof fn law_video_comes_as_raw_frames(p: VideoParams)
    ensures
        gives(p.video_args(), "-f"@, "rawvideo"@),
        gives(p.video_args(), "-pix_fmt"@, "bgr24"@),
        gives(p.video_args(), "-r"@, decimals::fixed(p.ffmpeg_fps, 4)),
        gives(p.video_args(), "-vsync"@, "cfr"@),
        gives(p.video_args(), "-v"@, "error"@),
        p.video_args().len() == if p.seek.ahead() {
            21int
        } else {
            19int
        },
        p.video_args()[0] == "-re"@,
        p.video_args()[p.video_args().len() - 2] == "-nostdin"@,
        p.video_args().last() == "pipe:1"@,
{
    let args = p.video_args();
    let n = args.len() as int;
    assert(args[n - 12] == "-f"@ && args[n - 11] == "rawvideo"@);
    assert(args[n - 10] == "-pix_fmt"@ && args[n - 9] == "bgr24"@);
    assert(args[n - 8] == "-r"@ && args[n - 7] == decimals::fixed(p.ffmpeg_fps, 4));
    assert(args[n - 6] == "-vsync"@ && args[n - 5] == "cfr"@);
    assert(args[n - 4] == "-v"@ && args[n - 3] == "error"@);
}

/// The sound is the stream that is asked for, as 16-bit stereo at 48 kHz, on the output.
pub proof fn law_sound_comes_as_samples(url: Seq<char>, audio_map: Seq<char>, seek: Seek)
    ensures
        ({
            let args = audio_args(url, audio_map, seek);
            &&& gives(args, "-map"@, audio_map)
            &&& gives(args, "-ac"@, "2"@)
            &&& gives(args, "-ar"@, "48000"@)
            &&& gives(args, "-f"@, "s16le"@)
            &&& gives(args, "-acodec"@, "pcm_s16le"@)
            &&& gives(args, "-v"@, "warning"@)
            &&& args.len() == if seek.ahead() {
                19int
            } else {
                17int
            }
            &&& args[0] == "-re"@
            &&& args[args.len() - 2] == "-nostdin"@
            &&& args.last() == "pipe:1"@
        }),
{
    let args = audio_args(url, audio_map, seek);
    let n = args.len() as int;
    assert(args[n - 14] == "-map"@ && args[n - 13] == audio_map);
    assert(args[n - 12] == "-ac"@ && args[n - 11] == "2"@);
    assert(args[n - 10] == "-ar"@ && args[n - 9] == "48000"@);
    assert(args[n - 8] == "-f"@ && args[n - 7] == "s16le"@);
    assert(args[n - 6] == "-acodec"@ && args[n - 5] == "pcm_s16le"@);
    assert(args[n - 4] == "-v"@ && args[n - 3] == "warning"@);
}

/// The subtitles are the stream that is asked for, written over the file that is named last.
pub proof fn law_subtitles_go_to_the_file(
    url: Seq<char>,
    sub_map: Seq<char>,
    seek: Seek,
    path: Seq<char>,
)
    ensures
        gives(subtitle_args(url, sub_map, seek, path), "-map"@, sub_map),
        subtitle_args(url, sub_map, seek, path).contains("-y"@),
        gives(subtitle_args(url, sub_map, seek, path), "-v"@, "error"@),
        subtitle_args(url, sub_map, seek, path).len() == if seek.ahead() {
            10int
        } else {
            8int
        },
        subtitle_args(url, sub_map, seek, path).last() == path,
{
    let args = subtitle_args(url, sub_map, seek, path);
    let n = args.len() as int;
    assert(args[n - 6] == "-map"@ && args[n - 5] == sub_map);
    assert(args[n - 4] == "-y"@);
    assert(args[n - 3] == "-v"@ && args[n - 2] == "error"@);
}

/// The filter step that scales the first video stream to a size and hands it on.
pub open spec fn scaling_to(w: int, h: int) -> Seq<char> {
    "[0:v:0]scale="@ + text::decimal(w as nat) + ":"@ + text::decimal(h as nat) + "[v];"@
}

/// The filter step that takes the scaled picture, of a size, draws the subtitles of a file into it
/// and hands it on.
pub open spec fn drawing(path: Seq<char>, w: int, h: int) -> Seq<char> {
    "[v]subtitles=filename="@ + path + ":original_size="@ + text::decimal(w as nat) + "x"@
        + text::decimal(h as nat) + "[s];"@
}

/// The filter step that puts what another step handed on into a black frame of a size, at a place.
pub open spec fn padding(input: Seq<char>, w: int, h: int, x: int, y: int) -> Seq<char> {
    input + "pad="@ + text::decimal(w as nat) + ":"@ + text::decimal(h as nat) + ":"@
        + text::decimal(x as nat) + ":"@ + text::decimal(y as nat) + ":black[out]"@
}

/// Whether a picture at a place is in the middle of a frame, to a pixel.
pub open spec fn is_centred(frame: int, picture: int, at: int) -> bool {
    0 <= at && 0 <= frame - picture - 2 * at <= 1
}

/// With subtitles, at every scale, the picture is scaled, the subtitles of the file are drawn into
/// it, and it is put into the middle of a frame of full size; that frame is what is decoded.
pub proof fn law_subtitles_are_drawn(p: VideoParams)
    requires
        p.fits(),
        p.sub_path is Some,
    ensures
        gives(p.video_args(), "-map"@, "[out]"@),
        exists|x: int, y: int|
            {
                &&& #[trigger] is_centred(p.w as int, p.picture_w(), x)
                &&& #[trigger] is_centred(p.ffmpeg_h as int, p.picture_h(), y)
                &&& gives(
                    p.video_args(),
                    "-filter_complex"@,
                    scaling_to(p.picture_w(), p.picture_h()) + drawing(
                        p.sub_path->0@,
                        p.picture_w(),
                        p.picture_h(),
                    ) + padding("[s]"@, p.w as int, p.ffmpeg_h as int, x, y),
                )
            },
{
    let args = p.video_args();
    let n = args.len() as int;
    let shape = p.picture_args();
    assert(args[n - 16] == shape[0] && args[n - 15] == shape[1]);
    assert(args[n - 14] == shape[2] && args[n - 13] == shape[3]);
    let x = (p.w - p.picture_w()) / 2;
    let y = (p.ffmpeg_h - p.picture_h()) / 2;
    assert(is_centred(p.w as int, p.picture_w(), x));
    assert(is_centred(p.ffmpeg_h as int, p.picture_h(), y));
}

/// Without subtitles no file is read but the video itself. At a scale below one the picture is
/// scaled and put into the middle of a frame of full size; else it has full size.
pub proof fn law_picture_is_scaled(p: VideoParams)
    requires
        p.fits(),
        p.sub_path is None,
    ensures
        p.scale.less(Double { bits: 0x3ff0_0000_0000_0000 }) ==> {
            &&& gives(p.video_args(), "-map"@, "[out]"@)
            &&& exists|x: int, y: int|
                {
                    &&& #[trigger] is_centred(p.w as int, p.picture_w(), x)
                    &&& #[trigger] is_centred(p.ffmpeg_h as int, p.picture_h(), y)
                    &&& gives(
                        p.video_args(),
                        "-filter_complex"@,
                        scaling_to(p.picture_w(), p.picture_h()) + padding(
                            "[v]"@,
                            p.w as int,
                            p.ffmpeg_h as int,
                            x,
                            y,
                        ),
                    )
                }
        },
        !p.scale.less(Double { bits: 0x3ff0_0000_0000_0000 }) ==> {
            &&& gives(p.video_args(), "-map"@, "0:v:0"@)
            &&& gives(
                p.video_args(),
                "-s"@,
                text::decimal(p.w as nat) + "x"@ + text::decimal(p.ffmpeg_h as nat),
            )
        },
{
    let args = p.video_args();
    let n = args.len() as int;
    let shape = p.picture_args();
    assert(args[n - 16] == shape[0] && args[n - 15] == shape[1]);
    assert(args[n - 14] == shape[2] && args[n - 13] == shape[3]);
    let x = (p.w - p.picture_w()) / 2;
    let y = (p.ffmpeg_h - p.picture_h()) / 2;
    assert(is_centred(p.w as int, p.picture_w(), x));
    assert(is_centred(p.ffmpeg_h as int, p.picture_h(), y));
}

/// The picture is as much smaller than the frame as the scale says, in both directions, to an even
/// number of pixels.
pub proof fn law_picture_follows_the_scale(p: VideoParams)
    requires
        p.w <= double::PRECISION,
        p.ffmpeg_h <= double::PRECISION,
        !p.scale.is_nan(),
        !p.scale.negative(),
        !(Double { bits: 0x3ff0_0000_0000_0000 }).less(p.scale),
    ensures
        p.picture_w() % 2 == 0,
        p.picture_h() % 2 == 0,
        double::is_about(p.picture_w(), 2, p.w as nat, p.scale),
        double::is_about(p.picture_h(), 2, p.ffmpeg_h as nat, p.scale),
{
    double::law_scaling_is_proportional(p.w as nat, p.scale);
    double::law_scaling_is_proportional(p.ffmpeg_h as nat, p.scale);
}

/// Where FFmpeg is not on the search path it is the first of the usual places where there is a file,
/// and it is missing where there is none at any of them.
pub proof fn law_first_place_with_a_file(found: Seq<bool>)
    requires
        found.len() == usual_places().len(),
    ensures
        match first_place(found) {
            Some(path) => exists|i: int|
                {
                    &&& 0 <= i < found.len()
                    &&& #[trigger] found[i]
                    &&& path == usual_places()[i]
                    &&& forall|j: int| 0 <= j < i ==> !#[trigger] found[j]
                },
            None => forall|i: int| 0 <= i < found.len() ==> !#[trigger] found[i],
        },
{
    if found[0] {
    } else if found[1] {
    } else if found[2] {
    }
}

/// The path that `which` gives is what it printed but for white space at either end.
pub proof fn law_path_is_what_was_printed(output: Seq<u8>)
    ensures
        ({
            let printed = text::text_of(output);
            let path = which_path(output);
            &&& path.len() > 0 ==> !text::blank(path[0]) && !text::blank(path.last())
            &&& exists|from: int, to: int|
                {
                    &&& 0 <= from <= to <= printed.len()
                    &&& path == #[trigger] printed.subrange(from, to)
                    &&& forall|i: int|
                        0 <= i < from || to <= i < printed.len() ==> text::blank(
                            #[trigger] printed[i],
                        )
                }
        }),
{
    text::law_trimming_cuts_white_space(text::text_of(output));
}

} // verus!
