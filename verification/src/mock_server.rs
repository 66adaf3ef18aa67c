//! The receiving side of a session, as a stand-in for the FPGA: it takes datagrams one by one,
//! checks their form, counts what they carry and answers with status reports.

use crate::bytes;
use crate::connection;
use crate::double::Double;
use crate::groovy;
use crate::groovy::Modeline;
use crate::lz4;
use vstd::prelude::*;
use vstd::string::*;

verus! {

/// A mode as a switchres command gave it.
#[derive(Clone, Copy, Debug, Default, PartialEq, Eq, Structural)]
pub struct SwitchresState {
    pub p_clock: Double,
    pub h_active: u16,
    pub h_begin: u16,
    pub h_end: u16,
    pub h_total: u16,
    pub v_active: u16,
    pub v_begin: u16,
    pub v_end: u16,
    pub v_total: u16,
    pub interlace: bool,
}

/// The settings that an init command gave.
#[derive(Clone, Copy, Debug, Default, PartialEq, Eq, Structural)]
pub struct InitState {
    pub compression: u8,
    pub sample_rate: u8,
    pub channels: u8,
    pub rgb_mode: u8,
}

/// What can be wrong with a datagram.
#[derive(Clone, Debug)]
pub enum ProtocolError {
    UnknownCommand(u8),
    InitWrongSize(usize),
    SwitchresWrongSize(usize),
    BlitHeaderWrongSize(usize),
    AudioHeaderWrongSize(usize),
    Lz4DecompressFailed(String),
    Lz4WrongDecompressedSize { expected: usize, got: usize },
    BlitPayloadIncomplete { expected: usize, got: usize },
    AudioPayloadIncomplete { expected: usize, got: usize },
}

/// What a [`ProtocolError`] says.
pub ghost enum Fault {
    UnknownCommand(u8),
    InitWrongSize(nat),
    SwitchresWrongSize(nat),
    BlitHeaderWrongSize(nat),
    AudioHeaderWrongSize(nat),
    Lz4DecompressFailed(Seq<char>),
    Lz4WrongDecompressedSize(nat, nat),
    BlitPayloadIncomplete(nat, nat),
    AudioPayloadIncomplete(nat, nat),
}

impl ProtocolError {
    /// What this error says.
    pub open spec fn fault(self) -> Fault {
        match self {
            ProtocolError::UnknownCommand(command) => Fault::UnknownCommand(command),
            ProtocolError::InitWrongSize(n) => Fault::InitWrongSize(n as nat),
            ProtocolError::SwitchresWrongSize(n) => Fault::SwitchresWrongSize(n as nat),
            ProtocolError::BlitHeaderWrongSize(n) => Fault::BlitHeaderWrongSize(n as nat),
            ProtocolError::AudioHeaderWrongSize(n) => Fault::AudioHeaderWrongSize(n as nat),
            ProtocolError::Lz4DecompressFailed(text) => Fault::Lz4DecompressFailed(text@),
            ProtocolError::Lz4WrongDecompressedSize { expected, got } =>
                Fault::Lz4WrongDecompressedSize(expected as nat, got as nat),
            ProtocolError::BlitPayloadIncomplete { expected, got } => Fault::BlitPayloadIncomplete(
                expected as nat,
                got as nat,
            ),
            ProtocolError::AudioPayloadIncomplete { expected, got } =>
                Fault::AudioPayloadIncomplete(expected as nat, got as nat),
        }
    }

    fn copy(&self) -> (copied: ProtocolError)
        ensures
            copied.fault() == self.fault(),
    {
        match self {
            ProtocolError::UnknownCommand(command) => ProtocolError::UnknownCommand(*command),
            ProtocolError::InitWrongSize(n) => ProtocolError::InitWrongSize(*n),
            ProtocolError::SwitchresWrongSize(n) => ProtocolError::SwitchresWrongSize(*n),
            ProtocolError::BlitHeaderWrongSize(n) => ProtocolError::BlitHeaderWrongSize(*n),
            ProtocolError::AudioHeaderWrongSize(n) => ProtocolError::AudioHeaderWrongSize(*n),
            ProtocolError::Lz4DecompressFailed(text) => ProtocolError::Lz4DecompressFailed(
                text.clone(),
            ),
            ProtocolError::Lz4WrongDecompressedSize { expected, got } =>
                ProtocolError::Lz4WrongDecompressedSize { expected: *expected, got: *got },
            ProtocolError::BlitPayloadIncomplete { expected, got } =>
                ProtocolError::BlitPayloadIncomplete { expected: *expected, got: *got },
            ProtocolError::AudioPayloadIncomplete { expected, got } =>
                ProtocolError::AudioPayloadIncomplete { expected: *expected, got: *got },
        }
    }
}

/// What the errors of a list say.
pub open spec fn faults(errors: Seq<ProtocolError>) -> Seq<Fault> {
    errors.map_values(|e: ProtocolError| e.fault())
}

/// What was counted.
#[derive(Debug)]
pub struct MockStats {
    pub init_count: u32,
    pub switchres_count: u32,
    pub blit_count: u32,
    pub audio_count: u32,
    pub close_count: u32,
    pub status_request_count: u32,
    pub total_blit_bytes: u64,
    pub total_audio_bytes: u64,
    pub last_init: Option<InitState>,
    pub last_switchres: Option<SwitchresState>,
    pub last_blit_frame: u32,
    pub last_blit_field: u8,
    pub errors: Vec<ProtocolError>,
}

/// What was counted, without limits.
#[verifier::ext_equal]
pub ghost struct Tally {
    pub init_count: nat,
    pub switchres_count: nat,
    pub blit_count: nat,
    pub audio_count: nat,
    pub close_count: nat,
    pub status_request_count: nat,
    pub total_blit_bytes: nat,
    pub total_audio_bytes: nat,
    pub last_init: Option<InitState>,
    pub last_switchres: Option<SwitchresState>,
    pub last_blit_frame: u32,
    pub last_blit_field: u8,
    pub errors: Seq<Fault>,
}

impl Tally {
    /// Nothing counted yet.
    pub open spec fn empty() -> Tally {
        Tally {
            init_count: 0,
            switchres_count: 0,
            blit_count: 0,
            audio_count: 0,
            close_count: 0,
            status_request_count: 0,
            total_blit_bytes: 0,
            total_audio_bytes: 0,
            last_init: None,
            last_switchres: None,
            last_blit_frame: 0,
            last_blit_field: 0,
            errors: seq![],
        }
    }

    /// Whether the counts fit where they are held.
    pub open spec fn fits(self) -> bool {
        &&& self.init_count <= u32::MAX
        &&& self.switchres_count <= u32::MAX
        &&& self.blit_count <= u32::MAX
        &&& self.audio_count <= u32::MAX
        &&& self.close_count <= u32::MAX
        &&& self.status_request_count <= u32::MAX
        &&& self.total_blit_bytes <= u64::MAX
        &&& self.total_audio_bytes <= u64::MAX
    }

    /// One more error.
    pub open spec fn failed(self, fault: Fault) -> Tally {
        Tally { errors: self.errors.push(fault), ..self }
    }

    /// One more block of audio.
    pub open spec fn heard(self, size: nat) -> Tally {
        Tally {
            audio_count: self.audio_count + 1,
            total_audio_bytes: self.total_audio_bytes + size,
            ..self
        }
    }

    /// One more field, not looked into.
    pub open spec fn blitted(self, frame_num: u32, field: u8, size: nat) -> Tally {
        Tally {
            blit_count: self.blit_count + 1,
            last_blit_frame: frame_num,
            last_blit_field: field,
            total_blit_bytes: self.total_blit_bytes + size,
            ..self
        }
    }
}

impl MockStats {
    /// What was counted.
    pub open spec fn tally(self) -> Tally {
        Tally {
            init_count: self.init_count as nat,
            switchres_count: self.switchres_count as nat,
            blit_count: self.blit_count as nat,
            audio_count: self.audio_count as nat,
            close_count: self.close_count as nat,
            status_request_count: self.status_request_count as nat,
            total_blit_bytes: self.total_blit_bytes as nat,
            total_audio_bytes: self.total_audio_bytes as nat,
            last_init: self.last_init,
            last_switchres: self.last_switchres,
            last_blit_frame: self.last_blit_frame,
            last_blit_field: self.last_blit_field,
            errors: faults(self.errors@),
        }
    }

    /// Whether any datagram was wrong.
    pub fn has_errors(&self) -> (yes: bool)
        ensures
            yes == (self.tally().errors.len() > 0),
    {
        self.errors.len() > 0
    }

    fn fail(&mut self, error: ProtocolError)
        ensures
            final(self).tally() == old(self).tally().failed(error.fault()),
    {
        self.errors.push(error);
        assert(faults(self.errors@) =~= faults(old(self).errors@).push(error.fault()));
    }
}

impl Default for MockStats {
    fn default() -> (stats: MockStats)
        ensures
            stats.tally() == Tally::empty(),
    {
        let stats = MockStats {
            init_count: 0,
            switchres_count: 0,
            blit_count: 0,
            audio_count: 0,
            close_count: 0,
            status_request_count: 0,
            total_blit_bytes: 0,
            total_audio_bytes: 0,
            last_init: None,
            last_switchres: None,
            last_blit_frame: 0,
            last_blit_field: 0,
            errors: Vec::new(),
        };
        assert(stats.tally() =~= Tally::empty());
        stats
    }
}

/// A field whose payload is on its way.
pub struct PendingBlit {
    pub frame_num: u32,
    pub field: u8,
    pub expected_size: usize,
    pub payload: Vec<u8>,
}

/// A field whose payload is on its way.
pub ghost struct BlitModel {
    pub frame_num: u32,
    pub field: u8,
    pub expected: nat,
    pub payload: Seq<u8>,
}

impl View for PendingBlit {
    type V = BlitModel;

    open spec fn view(&self) -> BlitModel {
        BlitModel {
            frame_num: self.frame_num,
            field: self.field,
            expected: self.expected_size as nat,
            payload: self.payload@,
        }
    }
}

/// A block of audio whose payload is on its way.
pub struct PendingAudio {
    pub expected_size: usize,
    pub payload: Vec<u8>,
}

/// A block of audio whose payload is on its way.
pub ghost struct AudioModel {
    pub expected: nat,
    pub payload: Seq<u8>,
}

impl View for PendingAudio {
    type V = AudioModel;

    open spec fn view(&self) -> AudioModel {
        AudioModel { expected: self.expected_size as nat, payload: self.payload@ }
    }
}

/// The receiver's state.
pub struct MockGroovyServer {
    pub stats: MockStats,
    pub pending_blit: Option<PendingBlit>,
    pub pending_audio: Option<PendingAudio>,
}

/// The receiver's state.
pub ghost struct ServerModel {
    pub tally: Tally,
    pub blit: Option<BlitModel>,
    pub audio: Option<AudioModel>,
}

impl View for MockGroovyServer {
    type V = ServerModel;

    open spec fn view(&self) -> ServerModel {
        ServerModel {
            tally: self.stats.tally(),
            blit: match self.pending_blit {
                Some(blit) => Some(blit@),
                None => None,
            },
            audio: match self.pending_audio {
                Some(audio) => Some(audio@),
                None => None,
            },
        }
    }
}

/// The counts after the payload of a field came together. Its first bytes, as many as were
/// announced, are to be an LZ4 block.
pub open spec fn blit_finished(tally: Tally, blit: BlitModel) -> Tally {
    let counted = tally.blitted(blit.frame_num, blit.field, blit.payload.len());
    if blit.payload.len() < blit.expected {
        counted.failed(Fault::BlitPayloadIncomplete(blit.expected, blit.payload.len()))
    } else {
        match lz4::lz4_decompressed(blit.payload.take(blit.expected as int)) {
            Ok(_) => counted,
            Err(text) => counted.failed(Fault::Lz4DecompressFailed(text)),
        }
    }
}

/// The counts after the payload of a block of audio came together.
pub open spec fn audio_finished(tally: Tally, audio: AudioModel) -> Tally {
    let counted = Tally {
        audio_count: tally.audio_count + 1,
        total_audio_bytes: tally.total_audio_bytes + if audio.payload.len() <= audio.expected {
            audio.payload.len()
        } else {
            audio.expected
        },
        ..tally
    };
    if audio.payload.len() < audio.expected {
        counted.failed(Fault::AudioPayloadIncomplete(audio.expected, audio.payload.len()))
    } else {
        counted
    }
}

/// The mode that a switchres command of 26 bytes gives.
pub open spec fn switchres_read(data: Seq<u8>) -> SwitchresState {
    SwitchresState {
        p_clock: Double { bits: bytes::at64(data, 1) },
        h_active: bytes::at16(data, 9),
        h_begin: bytes::at16(data, 11),
        h_end: bytes::at16(data, 13),
        h_total: bytes::at16(data, 15),
        v_active: bytes::at16(data, 17),
        v_begin: bytes::at16(data, 19),
        v_end: bytes::at16(data, 21),
        v_total: bytes::at16(data, 23),
        interlace: data[25] != 0,
    }
}

impl SwitchresState {
    /// The bytes of one uncompressed field in this mode.
    pub open spec fn field_length(self) -> int {
        let rows = if self.interlace {
            self.v_active as int / 2
        } else {
            self.v_active as int
        };
        self.h_active * rows * 3
    }
}

/// The bytes that follow the header of an uncompressed field; nothing where no mode is set.
pub open spec fn raw_length(tally: Tally) -> int {
    match tally.last_switchres {
        Some(mode) => mode.field_length(),
        None => 0,
    }
}

impl ServerModel {
    /// Before the first datagram.
    pub open spec fn initial() -> ServerModel {
        ServerModel { tally: Tally::empty(), blit: None, audio: None }
    }

    /// Whether no payload is on its way.
    pub open spec fn idle(self) -> bool {
        self.blit is None && self.audio is None
    }

    /// What every step keeps: at most one payload is on its way, and it is not complete.
    pub open spec fn wf(self) -> bool {
        &&& self.blit is None || self.audio is None
        &&& self.blit matches Some(blit) ==> blit.payload.len() < blit.expected
        &&& self.audio matches Some(audio) ==> audio.payload.len() < audio.expected
    }

    /// The state with the payload of a field, which is counted where it is complete.
    pub open spec fn with_blit(self, blit: BlitModel) -> ServerModel {
        if blit.payload.len() >= blit.expected {
            ServerModel { tally: blit_finished(self.tally, blit), blit: None, ..self }
        } else {
            ServerModel { blit: Some(blit), ..self }
        }
    }

    /// The state with the payload of a block of audio, which is counted where it is complete.
    pub open spec fn with_audio(self, audio: AudioModel) -> ServerModel {
        if audio.payload.len() >= audio.expected {
            ServerModel { tally: audio_finished(self.tally, audio), audio: None, ..self }
        } else {
            ServerModel { audio: Some(audio), ..self }
        }
    }

    /// The field that a blit command announces, where it announces a compressed size.
    pub open spec fn announced_blit(data: Seq<u8>) -> BlitModel {
        BlitModel {
            frame_num: bytes::at32(data, 1),
            field: data[5],
            expected: bytes::at32(data, 8) as nat,
            payload: data.skip(12),
        }
    }

    /// The state after a command.
    pub open spec fn commanded(self, data: Seq<u8>) -> ServerModel {
        let t = self.tally;
        let n = data.len();
        if data[0] == groovy::CMD_CLOSE {
            ServerModel { tally: Tally { close_count: t.close_count + 1, ..t }, ..self }
        } else if data[0] == groovy::CMD_INIT {
            let tally = if n != 5 {
                t.failed(Fault::InitWrongSize(n))
            } else {
                Tally {
                    init_count: t.init_count + 1,
                    last_init: Some(
                        InitState {
                            compression: data[1],
                            sample_rate: data[2],
                            channels: data[3],
                            rgb_mode: data[4],
                        },
                    ),
                    ..t
                }
            };
            ServerModel { tally, ..self }
        } else if data[0] == groovy::CMD_SWITCHRES {
            let tally = if n != 26 {
                t.failed(Fault::SwitchresWrongSize(n))
            } else {
                Tally {
                    switchres_count: t.switchres_count + 1,
                    last_switchres: Some(switchres_read(data)),
                    ..t
                }
            };
            ServerModel { tally, ..self }
        } else if data[0] == groovy::CMD_BLIT {
            if n < 8 {
                ServerModel { tally: t.failed(Fault::BlitHeaderWrongSize(n)), ..self }
            } else if n >= 12 {
                self.with_blit(Self::announced_blit(data))
            } else if raw_length(t) > 0 {
                ServerModel {
                    blit: Some(
                        BlitModel {
                            frame_num: bytes::at32(data, 1),
                            field: data[5],
                            expected: raw_length(t) as nat,
                            payload: seq![],
                        },
                    ),
                    ..self
                }
            } else {
                ServerModel { tally: t.blitted(bytes::at32(data, 1), data[5], 0), ..self }
            }
        } else if data[0] == groovy::CMD_AUDIO {
            if n < 3 {
                ServerModel { tally: t.failed(Fault::AudioHeaderWrongSize(n)), ..self }
            } else {
                self.with_audio(
                    AudioModel { expected: bytes::at16(data, 1) as nat, payload: data.skip(3) },
                )
            }
        } else if data[0] == groovy::CMD_GET_STATUS {
            ServerModel {
                tally: Tally { status_request_count: t.status_request_count + 1, ..t },
                ..self
            }
        } else {
            ServerModel { tally: t.failed(Fault::UnknownCommand(data[0])), ..self }
        }
    }

    /// The state after a datagram: where a payload is on its way the datagram belongs to it, else
    /// it is a command. An empty datagram changes nothing.
    pub open spec fn stepped(self, data: Seq<u8>) -> ServerModel {
        if data.len() == 0 {
            self
        } else {
            match (self.blit, self.audio) {
                (Some(blit), _) => self.with_blit(
                    BlitModel { payload: blit.payload + data, ..blit },
                ),
                (None, Some(audio)) => self.with_audio(
                    AudioModel { payload: audio.payload + data, ..audio },
                ),
                (None, None) => self.commanded(data),
            }
        }
    }

    /// The status report that answers a datagram. Payload and what has no meaning is not answered,
    /// nor is a command to close or audio.
    pub open spec fn reply(self, data: Seq<u8>) -> Option<Seq<u8>> {
        if data.len() == 0 || !self.idle() {
            None
        } else if data[0] == groovy::CMD_INIT || data[0] == groovy::CMD_SWITCHRES {
            Some(groovy::status_packet(0, 0, 0, 0, 5))
        } else if data[0] == groovy::CMD_BLIT && data.len() >= 8 {
            let frame_num = bytes::at32(data, 1);
            Some(groovy::status_packet(frame_num, 0, frame_num, 100, 7))
        } else if data[0] == groovy::CMD_GET_STATUS {
            let frame_num = self.tally.last_blit_frame;
            Some(groovy::status_packet(frame_num, 0, frame_num, 50, 5))
        } else {
            None
        }
    }

    /// Whether a payload that came together can be decompressed within machine limits.
    pub open spec fn blit_decompressible(blit: BlitModel) -> bool {
        blit.payload.len() >= blit.expected ==> lz4::decompressible(
            blit.payload.take(blit.expected as int),
        )
    }

    /// Whether a datagram can be handled within machine limits: the counts fit, and so do the
    /// numbers that the size of a field and its decompression go through.
    pub open spec fn accepts(self, data: Seq<u8>) -> bool {
        &&& self.stepped(data).tally.fits()
        &&& data.len() > 0 ==> match self.blit {
            Some(blit) => Self::blit_decompressible(
                BlitModel { payload: blit.payload + data, ..blit },
            ),
            None => self.audio is None && data[0] == groovy::CMD_BLIT ==> {
                &&& data.len() >= 12 ==> Self::blit_decompressible(Self::announced_blit(data))
                &&& 8 <= data.len() < 12 ==> raw_length(self.tally) <= usize::MAX
            },
        }
    }

    /// The state after several datagrams.
    pub open spec fn ran(self, datagrams: Seq<Seq<u8>>) -> ServerModel
        decreases datagrams.len(),
    {
        if datagrams.len() == 0 {
            self
        } else {
            self.stepped(datagrams[0]).ran(datagrams.skip(1))
        }
    }

    /// Whether several datagrams can be handled one after the other.
    pub open spec fn accepts_all(self, datagrams: Seq<Seq<u8>>) -> bool
        decreases datagrams.len(),
    {
        datagrams.len() > 0 ==> self.accepts(datagrams[0]) && self.stepped(
            datagrams[0],
        ).accepts_all(datagrams.skip(1))
    }
}

/// A step from a valid state leads to a valid state.
pub proof fn law_steps_keep_validity(server: ServerModel, data: Seq<u8>)
    requires
        server.wf(),
    ensures
        server.stepped(data).wf(),
{
}

impl MockGroovyServer {
    /// What every datagram keeps.
    pub open spec fn wf(self) -> bool {
        self@.wf()
    }

    /// The receiver before the first datagram.
    pub fn start() -> (server: MockGroovyServer)
        ensures
            server.wf(),
            server@ == ServerModel::initial(),
    {
        MockGroovyServer { stats: MockStats::default(), pending_blit: None, pending_audio: None }
    }

    /// A copy of what was counted so far.
    pub fn stats(&self) -> (stats: MockStats)
        ensures
            stats.tally() == self@.tally,
    {
        let mut errors: Vec<ProtocolError> = Vec::new();
        let mut i: usize = 0;
        while i < self.stats.errors.len()
            invariant
                i <= self.stats.errors@.len(),
                faults(errors@) == faults(self.stats.errors@).take(i as int),
            decreases self.stats.errors@.len() - i,
        {
            let ghost before = errors@;
            let error: ProtocolError = self.stats.errors[i].copy();
            errors.push(error);
            assert(faults(errors@) =~= faults(before).push(error.fault()));
            assert(faults(self.stats.errors@).take(i + 1) =~= faults(self.stats.errors@).take(
                i as int,
            ).push(faults(self.stats.errors@)[i as int]));
            i += 1;
        }
        assert(faults(errors@) =~= faults(self.stats.errors@));
        MockStats {
            init_count: self.stats.init_count,
            switchres_count: self.stats.switchres_count,
            blit_count: self.stats.blit_count,
            audio_count: self.stats.audio_count,
            close_count: self.stats.close_count,
            status_request_count: self.stats.status_request_count,
            total_blit_bytes: self.stats.total_blit_bytes,
            total_audio_bytes: self.stats.total_audio_bytes,
            last_init: self.stats.last_init,
            last_switchres: self.stats.last_switchres,
            last_blit_frame: self.stats.last_blit_frame,
            last_blit_field: self.stats.last_blit_field,
            errors,
        }
    }

    /// Ends the receiver and gives what was counted.
    pub fn stop(self) -> (stats: MockStats)
        ensures
            stats.tally() == self@.tally,
    {
        self.stats()
    }

    fn build_ack(
        frame_echo: u32,
        vcount_echo: u16,
        frame: u32,
        vcount: u16,
        bits: u8,
    ) -> (packet: Vec<u8>)
        ensures
            packet@ == groovy::status_packet(frame_echo, vcount_echo, frame, vcount, bits),
    {
        let mut packet: Vec<u8> = Vec::new();
        bytes::push32(&mut packet, frame_echo);
        bytes::push16(&mut packet, vcount_echo);
        bytes::push32(&mut packet, frame);
        bytes::push16(&mut packet, vcount);
        packet.push(bits);
        assert(packet@ =~= groovy::status_packet(frame_echo, vcount_echo, frame, vcount, bits));
        packet
    }

    fn finish_blit(&mut self, blit: &PendingBlit)
        requires
            blit_finished(old(self)@.tally, blit@).fits(),
            ServerModel::blit_decompressible(blit@),
        ensures
            final(self)@ == (ServerModel {
                tally: blit_finished(old(self)@.tally, blit@),
                ..old(self)@
            }),
    {
        self.stats.blit_count = self.stats.blit_count + 1;
        self.stats.last_blit_frame = blit.frame_num;
        self.stats.last_blit_field = blit.field;
        self.stats.total_blit_bytes = self.stats.total_blit_bytes + blit.payload.len() as u64;
        if blit.payload.len() < blit.expected_size {
            self.stats.fail(
                ProtocolError::BlitPayloadIncomplete {
                    expected: blit.expected_size,
                    got: blit.payload.len(),
                },
            );
            return;
        }
        let payload: Vec<u8> = bytes::copy_range(blit.payload.as_slice(), 0, blit.expected_size);
        assert(payload@ =~= blit.payload@.take(blit.expected_size as int));
        if let Err(text) = lz4::decompress_size_prepended(payload.as_slice()) {
            self.stats.fail(ProtocolError::Lz4DecompressFailed(text));
        }
    }

    fn finish_audio(&mut self, audio: &PendingAudio)
        requires
            audio_finished(old(self)@.tally, audio@).fits(),
        ensures
            final(self)@ == (ServerModel {
                tally: audio_finished(old(self)@.tally, audio@),
                ..old(self)@
            }),
    {
        let size: usize = if audio.payload.len() <= audio.expected_size {
            audio.payload.len()
        } else {
            audio.expected_size
        };
        self.stats.audio_count = self.stats.audio_count + 1;
        self.stats.total_audio_bytes = self.stats.total_audio_bytes + size as u64;
        if audio.payload.len() < audio.expected_size {
            self.stats.fail(
                ProtocolError::AudioPayloadIncomplete {
                    expected: audio.expected_size,
                    got: audio.payload.len(),
                },
            );
        }
    }

    fn keep_blit(&mut self, blit: PendingBlit)
        requires
            old(self)@.blit is None,
            old(self)@.with_blit(blit@).tally.fits(),
            ServerModel::blit_decompressible(blit@),
        ensures
            final(self)@ == old(self)@.with_blit(blit@),
    {
        if blit.payload.len() >= blit.expected_size {
            self.finish_blit(&blit);
        } else {
            self.pending_blit = Some(blit);
        }
    }

    fn keep_audio(&mut self, audio: PendingAudio)
        requires
            old(self)@.audio is None,
            old(self)@.with_audio(audio@).tally.fits(),
        ensures
            final(self)@ == old(self)@.with_audio(audio@),
    {
        if audio.payload.len() >= audio.expected_size {
            self.finish_audio(&audio);
        } else {
            self.pending_audio = Some(audio);
        }
    }

    fn raw_size(&self) -> (size: usize)
        requires
            raw_length(self@.tally) <= usize::MAX,
        ensures
            size == raw_length(self@.tally),
    {
        match &self.stats.last_switchres {
            Some(mode) => {
                let rows: usize = if mode.interlace {
                    (mode.v_active / 2) as usize
                } else {
                    mode.v_active as usize
                };
                proof {
                    assert(0 <= mode.h_active * rows) by (nonlinear_arith);
                }
                mode.h_active as usize * rows * 3
            },
            None => 0,
        }
    }

    fn take_switchres(&mut self, data: &[u8])
        requires
            data@.len() == 26,
            old(self)@.tally.switchres_count < u32::MAX,
        ensures
            final(self)@ == (ServerModel {
                tally: Tally {
                    switchres_count: old(self)@.tally.switchres_count + 1,
                    last_switchres: Some(switchres_read(data@)),
                    ..old(self)@.tally
                },
                ..old(self)@
            }),
    {
        self.stats.switchres_count = self.stats.switchres_count + 1;
        self.stats.last_switchres =
        Some(
            SwitchresState {
                p_clock: Double { bits: bytes::read64(data, 1) },
                h_active: bytes::read16(data, 9),
                h_begin: bytes::read16(data, 11),
                h_end: bytes::read16(data, 13),
                h_total: bytes::read16(data, 15),
                v_active: bytes::read16(data, 17),
                v_begin: bytes::read16(data, 19),
                v_end: bytes::read16(data, 21),
                v_total: bytes::read16(data, 23),
                interlace: data[25] != 0,
            },
        );
    }

    fn take_blit(&mut self, data: &[u8])
        requires
            old(self)@.idle(),
            data@.len() >= 8,
            data@[0] == groovy::CMD_BLIT,
            old(self)@.accepts(data@),
        ensures
            final(self)@ == old(self)@.commanded(data@),
    {
        let frame_num: u32 = bytes::read32(data, 1);
        let field: u8 = data[5];
        if data.len() >= 12 {
            let payload: Vec<u8> = bytes::copy_range(data, 12, data.len());
            assert(payload@ =~= data@.skip(12));
            let expected_size: usize = bytes::read32(data, 8) as usize;
            self.keep_blit(PendingBlit { frame_num, field, expected_size, payload });
        } else {
            let expected_size: usize = self.raw_size();
            if expected_size > 0 {
                self.pending_blit =
                Some(PendingBlit { frame_num, field, expected_size, payload: Vec::new() });
            } else {
                self.stats.blit_count = self.stats.blit_count + 1;
                self.stats.last_blit_frame = frame_num;
                self.stats.last_blit_field = field;
            }
        }
    }

    fn take_command(&mut self, data: &[u8]) -> (reply: Option<Vec<u8>>)
        requires
            old(self)@.idle(),
            data@.len() > 0,
            old(self)@.accepts(data@),
        ensures
            final(self)@ == old(self)@.commanded(data@),
            (match reply {
                Some(packet) => Some(packet@),
                None => None,
            }) == old(self)@.reply(data@),
    {
        let command: u8 = data[0];
        if command == groovy::CMD_CLOSE {
            self.stats.close_count = self.stats.close_count + 1;
            None
        } else if command == groovy::CMD_INIT {
            if data.len() != 5 {
                self.stats.fail(ProtocolError::InitWrongSize(data.len()));
            } else {
                self.stats.init_count = self.stats.init_count + 1;
                self.stats.last_init =
                Some(
                    InitState {
                        compression: data[1],
                        sample_rate: data[2],
                        channels: data[3],
                        rgb_mode: data[4],
                    },
                );
            }
            Some(Self::build_ack(0, 0, 0, 0, 5))
        } else if command == groovy::CMD_SWITCHRES {
            if data.len() != 26 {
                self.stats.fail(ProtocolError::SwitchresWrongSize(data.len()));
            } else {
                self.take_switchres(data);
            }
            Some(Self::build_ack(0, 0, 0, 0, 5))
        } else if command == groovy::CMD_BLIT {
            if data.len() < 8 {
                self.stats.fail(ProtocolError::BlitHeaderWrongSize(data.len()));
                None
            } else {
                let frame_num: u32 = bytes::read32(data, 1);
                self.take_blit(data);
                Some(Self::build_ack(frame_num, 0, frame_num, 100, 7))
            }
        } else if command == groovy::CMD_AUDIO {
            if data.len() < 3 {
                self.stats.fail(ProtocolError::AudioHeaderWrongSize(data.len()));
            } else {
                let payload: Vec<u8> = bytes::copy_range(data, 3, data.len());
                assert(payload@ =~= data@.skip(3));
                let expected_size: usize = bytes::read16(data, 1) as usize;
                self.keep_audio(PendingAudio { expected_size, payload });
            }
            None
        } else if command == groovy::CMD_GET_STATUS {
            self.stats.status_request_count = self.stats.status_request_count + 1;
            let frame_num: u32 = self.stats.last_blit_frame;
            Some(Self::build_ack(frame_num, 0, frame_num, 50, 5))
        } else {
            self.stats.fail(ProtocolError::UnknownCommand(command));
            None
        }
    }

    fn can_keep_blit(&self, payload: &[u8], expected_size: usize) -> (yes: bool)
        ensures
            forall|blit: BlitModel|
                blit.payload == payload@ && blit.expected == expected_size ==> yes == (
                #[trigger] self@.with_blit(blit).tally.fits() && ServerModel::blit_decompressible(
                    blit,
                )),
    {
        if payload.len() < expected_size {
            return true;
        }
        let whole: Vec<u8> = bytes::copy_range(payload, 0, expected_size);
        assert(whole@ =~= payload@.take(expected_size as int));
        let total: u128 = self.stats.total_blit_bytes as u128 + payload.len() as u128;
        self.stats.blit_count < u32::MAX && total <= u64::MAX as u128 && lz4::is_decompressible(
            whole.as_slice(),
        )
    }

    fn can_keep_audio(&self, size: usize, expected_size: usize) -> (yes: bool)
        ensures
            forall|audio: AudioModel|
                audio.payload.len() == size && audio.expected == expected_size ==> yes
                    == #[trigger] self@.with_audio(audio).tally.fits(),
    {
        if size < expected_size {
            return true;
        }
        let total: u128 = self.stats.total_audio_bytes as u128 + expected_size as u128;
        self.stats.audio_count < u32::MAX && total <= u64::MAX as u128
    }

    fn can_take_command(&self, data: &[u8]) -> (yes: bool)
        requires
            self@.idle(),
            data@.len() > 0,
        ensures
            yes == self@.accepts(data@),
    {
        let command: u8 = data[0];
        if command == groovy::CMD_CLOSE {
            self.stats.close_count < u32::MAX
        } else if command == groovy::CMD_INIT {
            data.len() != 5 || self.stats.init_count < u32::MAX
        } else if command == groovy::CMD_SWITCHRES {
            data.len() != 26 || self.stats.switchres_count < u32::MAX
        } else if command == groovy::CMD_BLIT {
            if data.len() < 8 {
                true
            } else if data.len() >= 12 {
                let payload: Vec<u8> = bytes::copy_range(data, 12, data.len());
                assert(payload@ =~= data@.skip(12));
                let yes = self.can_keep_blit(payload.as_slice(), bytes::read32(data, 8) as usize);
                let ghost announced = ServerModel::announced_blit(data@);
                assert(yes == (self@.with_blit(announced).tally.fits()
                    && ServerModel::blit_decompressible(announced)));
                yes
            } else {
                match &self.stats.last_switchres {
                    Some(mode) => {
                        let rows: u64 = if mode.interlace {
                            (mode.v_active / 2) as u64
                        } else {
                            mode.v_active as u64
                        };
                        proof {
                            assert(0 <= mode.h_active * rows <= 0xffff * 0xffff)
                                by (nonlinear_arith)
                                requires
                                    0 <= mode.h_active <= 0xffff,
                                    0 <= rows <= 0xffff,
                            ;
                        }
                        let size: u64 = mode.h_active as u64 * rows * 3;
                        size <= usize::MAX as u64 && (size > 0 || self.stats.blit_count < u32::MAX)
                    },
                    None => self.stats.blit_count < u32::MAX,
                }
            }
        } else if command == groovy::CMD_AUDIO {
            if data.len() < 3 {
                true
            } else {
                let yes = self.can_keep_audio(data.len() - 3, bytes::read16(data, 1) as usize);
                assert(self@.with_audio(
                    AudioModel { expected: bytes::at16(data@, 1) as nat, payload: data@.skip(3) },
                ).tally.fits() == yes);
                yes
            }
        } else if command == groovy::CMD_GET_STATUS {
            self.stats.status_request_count < u32::MAX
        } else {
            true
        }
    }

    /// Whether a datagram can be handled within machine limits.
    pub fn can_handle(&self, data: &[u8]) -> (yes: bool)
        requires
            self.wf(),
        ensures
            yes == self@.accepts(data@),
    {
        if data.len() == 0 {
            return true;
        }
        match &self.pending_blit {
            Some(blit) => {
                let mut payload: Vec<u8> = bytes::copy_range(
                    blit.payload.as_slice(),
                    0,
                    blit.payload.len(),
                );
                assert(payload@ =~= blit.payload@);
                bytes::push_all(&mut payload, data);
                let yes = self.can_keep_blit(payload.as_slice(), blit.expected_size);
                let ghost joined = BlitModel { payload: blit.payload@ + data@, ..blit@ };
                assert(yes == (self@.with_blit(joined).tally.fits()
                    && ServerModel::blit_decompressible(joined)));
                yes
            },
            None => match &self.pending_audio {
                Some(audio) => {
                    let mut payload: Vec<u8> = bytes::copy_range(
                        audio.payload.as_slice(),
                        0,
                        audio.payload.len(),
                    );
                    assert(payload@ =~= audio.payload@);
                    bytes::push_all(&mut payload, data);
                    let yes = self.can_keep_audio(payload.len(), audio.expected_size);
                    assert(self@.with_audio(
                        AudioModel { payload: audio.payload@ + data@, ..audio@ },
                    ).tally.fits() == yes);
                    yes
                },
                None => self.can_take_command(data),
            },
        }
    }

    /// Takes a datagram and gives the status report that answers it, if any does.
    pub fn handle(&mut self, data: &[u8]) -> (reply: Option<Vec<u8>>)
        requires
            old(self).wf(),
            old(self)@.accepts(data@),
        ensures
            final(self).wf(),
            final(self)@ == old(self)@.stepped(data@),
            (match reply {
                Some(packet) => Some(packet@),
                None => None,
            }) == old(self)@.reply(data@),
    {
        proof {
            law_steps_keep_validity(self@, data@);
        }
        if data.len() == 0 {
            return None;
        }
        match self.pending_blit.take() {
            Some(mut blit) => {
                bytes::push_all(&mut blit.payload, data);
                self.keep_blit(blit);
                None
            },
            None => match self.pending_audio.take() {
                Some(mut audio) => {
                    bytes::push_all(&mut audio.payload, data);
                    self.keep_audio(audio);
                    None
                },
                None => self.take_command(data),
            },
        }
    }
}

/// A receiver that waits for a command takes the init command, remembers its settings and reports
/// that it is ready and synced.
pub proof fn law_init_is_taken(
    server: ServerModel,
    compression: u8,
    sample_rate: u8,
    channels: u8,
    rgb_mode: u8,
)
    requires
        server.idle(),
    ensures
        ({
            let packet = groovy::init_packet(compression, sample_rate, channels, rgb_mode);
            let t = server.tally;
            &&& server.stepped(packet) == (ServerModel {
                tally: Tally {
                    init_count: t.init_count + 1,
                    last_init: Some(
                        InitState { compression, sample_rate, channels, rgb_mode },
                    ),
                    ..t
                },
                ..server
            })
            &&& server.reply(packet) matches Some(report) && {
                &&& report.len() == groovy::STATUS_LENGTH
                &&& groovy::reported(report).vram_ready
                &&& groovy::reported(report).vram_synced
            }
        }),
{
    groovy::law_status_round_trip(0, 0, 0, 0, 5);
}

/// Reading a switchres command gives back the mode that was written into it.
pub proof fn law_switchres_round_trip(m: Modeline)
    ensures
        groovy::switchres_packet(m).len() == 26,
        switchres_read(groovy::switchres_packet(m)) == (SwitchresState {
            p_clock: m.p_clock,
            h_active: m.h_active,
            h_begin: m.h_begin,
            h_end: m.h_end,
            h_total: m.h_total,
            v_active: m.v_active,
            v_begin: m.v_begin,
            v_end: m.v_end,
            v_total: m.v_total,
            interlace: m.interlace,
        }),
{
    let all = groovy::switchres_packet(m);
    let a0 = seq![groovy::CMD_SWITCHRES];
    let a1 = a0 + bytes::le64(m.p_clock.bits);
    let a2 = a1 + bytes::le16(m.h_active);
    let a3 = a2 + bytes::le16(m.h_begin);
    let a4 = a3 + bytes::le16(m.h_end);
    let a5 = a4 + bytes::le16(m.h_total);
    let a6 = a5 + bytes::le16(m.v_active);
    let a7 = a6 + bytes::le16(m.v_begin);
    let a8 = a7 + bytes::le16(m.v_end);
    let a9 = a8 + bytes::le16(m.v_total);
    bytes::law_read_written_64(a0, m.p_clock.bits, all.skip(9));
    assert(a0 + bytes::le64(m.p_clock.bits) + all.skip(9) =~= all);
    bytes::law_read_written_16(a1, m.h_active, all.skip(11));
    assert(a2 + all.skip(11) =~= all);
    bytes::law_read_written_16(a2, m.h_begin, all.skip(13));
    assert(a3 + all.skip(13) =~= all);
    bytes::law_read_written_16(a3, m.h_end, all.skip(15));
    assert(a4 + all.skip(15) =~= all);
    bytes::law_read_written_16(a4, m.h_total, all.skip(17));
    assert(a5 + all.skip(17) =~= all);
    bytes::law_read_written_16(a5, m.v_active, all.skip(19));
    assert(a6 + all.skip(19) =~= all);
    bytes::law_read_written_16(a6, m.v_begin, all.skip(21));
    assert(a7 + all.skip(21) =~= all);
    bytes::law_read_written_16(a7, m.v_end, all.skip(23));
    assert(a8 + all.skip(23) =~= all);
    bytes::law_read_written_16(a8, m.v_total, all.skip(25));
    assert(a9 + all.skip(25) =~= all);
}

/// A receiver that waits for a command takes the switchres command and remembers the mode.
pub proof fn law_switchres_is_taken(server: ServerModel, m: Modeline)
    requires
        server.idle(),
    ensures
        server.stepped(groovy::switchres_packet(m)) == (ServerModel {
            tally: Tally {
                switchres_count: server.tally.switchres_count + 1,
                last_switchres: Some(
                    SwitchresState {
                        p_clock: m.p_clock,
                        h_active: m.h_active,
                        h_begin: m.h_begin,
                        h_end: m.h_end,
                        h_total: m.h_total,
                        v_active: m.v_active,
                        v_begin: m.v_begin,
                        v_end: m.v_end,
                        v_total: m.v_total,
                        interlace: m.interlace,
                    },
                ),
                ..server.tally
            },
            ..server
        }),
{
    law_switchres_round_trip(m);
}

/// A receiver that waits for a command counts the close command, which is not answered.
pub proof fn law_close_is_counted(server: ServerModel)
    requires
        server.idle(),
    ensures
        server.stepped(groovy::close_packet()) == (ServerModel {
            tally: Tally { close_count: server.tally.close_count + 1, ..server.tally },
            ..server
        }),
        server.reply(groovy::close_packet()) is None,
{
}

/// The payload of a field that is on its way completes it, however it is cut into datagrams.
proof fn lemma_payload_completes_blit(server: ServerModel, chunks: Seq<Seq<u8>>, data: Seq<u8>)
    requires
        groovy::is_cut(chunks, data),
        data.len() > 0,
        server.audio is None,
        server.blit matches Some(blit) && blit.payload.len() + data.len() == blit.expected,
    ensures
        ({
            let blit = server.blit->0;
            let whole = BlitModel { payload: blit.payload + data, ..blit };
            let after = ServerModel {
                tally: blit_finished(server.tally, whole),
                blit: None,
                audio: None,
            };
            &&& server.ran(chunks) == after
            &&& server.tally.fits() && after.tally.fits() && lz4::decompressible(whole.payload)
                ==> server.accepts_all(chunks)
        }),
    decreases chunks.len(),
{
    let blit = server.blit->0;
    let whole = BlitModel { payload: blit.payload + data, ..blit };
    assert(whole.payload.take(whole.expected as int) =~= whole.payload);
    let first = chunks[0];
    let others = chunks.skip(1);
    let rest = groovy::joined(others);
    let next = server.stepped(first);
    assert(first + rest == data);
    if others.len() == 0 {
        assert(rest =~= seq![]);
        assert(first =~= data);
        assert(next.ran(others) == next);
        assert(next.accepts_all(others));
    } else {
        assert(others[0] == chunks[1]);
        assert(rest.len() > 0);
        assert forall|i: int| 0 <= i < others.len() implies (#[trigger] others[i]).len() > 0 by {
            assert(others[i] == chunks[i + 1]);
        }
        assert(blit.payload + first + rest =~= whole.payload);
        lemma_payload_completes_blit(next, others, rest);
    }
}

/// The payload of a block of audio that is on its way completes it, however it is cut into
/// datagrams.
proof fn lemma_payload_completes_audio(server: ServerModel, chunks: Seq<Seq<u8>>, data: Seq<u8>)
    requires
        groovy::is_cut(chunks, data),
        data.len() > 0,
        server.blit is None,
        server.audio matches Some(audio) && audio.payload.len() + data.len() == audio.expected,
    ensures
        ({
            let audio = server.audio->0;
            let whole = AudioModel { payload: audio.payload + data, ..audio };
            let after = ServerModel {
                tally: audio_finished(server.tally, whole),
                blit: None,
                audio: None,
            };
            &&& server.ran(chunks) == after
            &&& server.tally.fits() && after.tally.fits() ==> server.accepts_all(chunks)
        }),
    decreases chunks.len(),
{
    let audio = server.audio->0;
    let whole = AudioModel { payload: audio.payload + data, ..audio };
    let first = chunks[0];
    let others = chunks.skip(1);
    let rest = groovy::joined(others);
    let next = server.stepped(first);
    assert(first + rest == data);
    if others.len() == 0 {
        assert(rest =~= seq![]);
        assert(first =~= data);
        assert(next.ran(others) == next);
        assert(next.accepts_all(others));
    } else {
        assert(others[0] == chunks[1]);
        assert(rest.len() > 0);
        assert forall|i: int| 0 <= i < others.len() implies (#[trigger] others[i]).len() > 0 by {
            assert(others[i] == chunks[i + 1]);
        }
        assert(audio.payload + first + rest =~= whole.payload);
        lemma_payload_completes_audio(next, others, rest);
    }
}

/// A field that is sent in compressed form: its bytes before and after compression, the cut of the
/// latter into datagrams, its frame number, which field it is, and the line of its vertical sync.
pub ghost struct SentField {
    pub frame: Seq<u8>,
    pub compressed: Seq<u8>,
    pub chunks: Seq<Seq<u8>>,
    pub frame_num: u32,
    pub field: u8,
    pub vsync: u16,
}

impl SentField {
    /// Whether this is a field as a sender makes it: the sizes have 32 bits, and the datagrams hold
    /// what the frame was compressed to.
    pub open spec fn is_made(self) -> bool {
        &&& lz4::compresses(self.frame, self.compressed)
        &&& self.frame.len() <= u32::MAX
        &&& self.compressed.len() <= u32::MAX
        &&& groovy::is_cut(self.chunks, self.compressed)
    }

    /// The datagrams of the field.
    pub open spec fn datagrams(self) -> Seq<Seq<u8>> {
        seq![
            groovy::blit_packet(
                self.frame_num,
                self.field,
                self.vsync,
                Some(self.compressed.len() as u32),
            ),
        ] + self.chunks
    }
}

/// A block of audio that is sent, and its cut into datagrams.
pub ghost struct SentAudio {
    pub pcm: Seq<u8>,
    pub chunks: Seq<Seq<u8>>,
}

impl SentAudio {
    /// Whether this is a block as a sender makes it: the size has 16 bits, and the datagrams hold
    /// the block.
    pub open spec fn is_made(self) -> bool {
        &&& self.pcm.len() <= u16::MAX
        &&& groovy::is_cut(self.chunks, self.pcm)
    }

    /// The datagrams of the block.
    pub open spec fn datagrams(self) -> Seq<Seq<u8>> {
        seq![groovy::audio_packet(self.pcm.len() as u16)] + self.chunks
    }
}

/// A receiver that waits for a command takes a compressed field in full, however it is cut into
/// datagrams, counts it once, and finds nothing wrong with it; to the first datagram it answers with
/// the frame's number. Within machine limits each of the datagrams can be handled.
pub proof fn law_field_is_taken(server: ServerModel, sent: SentField)
    requires
        server.idle(),
        sent.is_made(),
    ensures
        ({
            let after = ServerModel {
                tally: server.tally.blitted(sent.frame_num, sent.field, sent.compressed.len()),
                ..server
            };
            &&& server.ran(sent.datagrams()) == after
            &&& server.reply(sent.datagrams()[0]) matches Some(report) && {
                &&& report.len() == groovy::STATUS_LENGTH
                &&& groovy::reported(report).frame_echo == sent.frame_num
                &&& groovy::reported(report).frame == sent.frame_num
            }
            &&& server.tally.fits() && after.tally.fits() && lz4::decompressible(sent.compressed)
                ==> server.accepts_all(sent.datagrams())
        }),
{
    let n = sent.compressed.len() as u32;
    let datagrams = sent.datagrams();
    let header = groovy::blit_packet(sent.frame_num, sent.field, sent.vsync, Some(n));
    assert(datagrams[0] == header);
    let a = seq![groovy::CMD_BLIT];
    let tail = seq![sent.field] + bytes::le16(sent.vsync);
    let b = a + bytes::le32(sent.frame_num) + seq![sent.field] + bytes::le16(sent.vsync);
    bytes::law_read_written_32(a, sent.frame_num, tail + bytes::le32(n));
    assert(a + bytes::le32(sent.frame_num) + (tail + bytes::le32(n)) =~= header);
    bytes::law_read_written_32(b, n, seq![]);
    assert(b + bytes::le32(n) + seq![] =~= header);
    assert(header[0] == groovy::CMD_BLIT);
    assert(header[5] == sent.field);
    groovy::law_status_round_trip(sent.frame_num, 0, sent.frame_num, 100, 7);
    let next = server.stepped(header);
    assert(header.skip(12) =~= seq![]);
    assert(next.blit == Some(
        BlitModel {
            frame_num: sent.frame_num,
            field: sent.field,
            expected: sent.compressed.len(),
            payload: seq![],
        },
    ));
    assert(datagrams.skip(1) =~= sent.chunks);
    lemma_payload_completes_blit(next, sent.chunks, sent.compressed);
    assert(Seq::<u8>::empty() + sent.compressed =~= sent.compressed);
    assert(sent.compressed.take(sent.compressed.len() as int) =~= sent.compressed);
}

/// A receiver that waits for a command takes a block of audio in full, however it is cut into
/// datagrams, counts it once, and finds nothing wrong with it.
pub proof fn law_audio_is_taken(server: ServerModel, sent: SentAudio)
    requires
        server.idle(),
        sent.is_made(),
    ensures
        ({
            let after = ServerModel { tally: server.tally.heard(sent.pcm.len()), ..server };
            &&& server.ran(sent.datagrams()) == after
            &&& server.tally.fits() && after.tally.fits() ==> server.accepts_all(sent.datagrams())
        }),
{
    let n = sent.pcm.len() as u16;
    let datagrams = sent.datagrams();
    let header = groovy::audio_packet(n);
    assert(datagrams[0] == header);
    bytes::law_read_written_16(seq![groovy::CMD_AUDIO], n, seq![]);
    assert(seq![groovy::CMD_AUDIO] + bytes::le16(n) + seq![] =~= header);
    assert(header[0] == groovy::CMD_AUDIO);
    assert(header.skip(3) =~= seq![]);
    let next = server.stepped(header);
    assert(datagrams.skip(1) =~= sent.chunks);
    if sent.pcm.len() == 0 {
        assert(sent.chunks.len() == 0) by {
            if sent.chunks.len() > 0 {
                assert(sent.chunks[0].len() > 0);
            }
        }
        assert(next.ran(datagrams.skip(1)) == next);
        assert(next.accepts_all(datagrams.skip(1)));
    } else {
        lemma_payload_completes_audio(next, sent.chunks, sent.pcm);
        assert(Seq::<u8>::empty() + sent.pcm =~= sent.pcm);
    }
}

/// The datagrams of [`connection::GroovyConnection::blit`] are those of a field as a sender makes
/// it, so that what is said of such a field holds of them.
pub proof fn law_sender_makes_fields(
    frame: Seq<u8>,
    compressed: Seq<u8>,
    frame_num: u32,
    field: u8,
    vsync: u16,
    mtu: int,
)
    requires
        mtu > 0,
        lz4::compresses(frame, compressed),
        frame.len() <= u32::MAX,
        compressed.len() <= u32::MAX,
    ensures
        ({
            let chunks = groovy::chunked(compressed, mtu);
            let sent = SentField { frame, compressed, chunks, frame_num, field, vsync };
            &&& sent.is_made()
            &&& sent.datagrams() == connection::blit_datagrams(
                compressed,
                frame_num,
                field,
                vsync,
                mtu,
            )
        }),
{
    groovy::law_chunks_hold_payload(compressed, mtu);
    assert(compressed.len() as int % 0x1_0000_0000 == compressed.len());
}

/// The datagrams of [`connection::GroovyConnection::audio`] are those of a block as a sender makes
/// it, where the size of the block has 16 bits.
pub proof fn law_sender_makes_audio(pcm: Seq<u8>, mtu: int)
    requires
        mtu > 0,
        pcm.len() <= u16::MAX,
    ensures
        ({
            let sent = SentAudio { pcm, chunks: groovy::chunked(pcm, mtu) };
            &&& sent.is_made()
            &&& sent.datagrams() == connection::audio_datagrams(pcm, mtu)
        }),
{
    groovy::law_chunks_hold_payload(pcm, mtu);
    assert(pcm.len() as int % 0x1_0000 == pcm.len());
}

/// The sender that looks at the report on a field knows that frame or a later one.
pub proof fn law_field_is_acknowledged(
    status: groovy::FpgaStatus,
    server: ServerModel,
    header: Seq<u8>,
)
    requires
        server.idle(),
        header.len() >= 8,
        header[0] == groovy::CMD_BLIT,
    ensures
        server.reply(header) matches Some(report) && connection::polled(status, report).frame_echo
            >= bytes::at32(header, 1),
{
    let frame_num = bytes::at32(header, 1);
    groovy::law_status_round_trip(frame_num, 0, frame_num, 100, 7);
}

/// A receiver that knows the mode takes an uncompressed field of that mode in full, however it is
/// cut into datagrams, counts it once, and then looks for an LZ4 block in it.
pub proof fn law_raw_field_is_taken(
    server: ServerModel,
    frame: Seq<u8>,
    chunks: Seq<Seq<u8>>,
    frame_num: u32,
    field: u8,
    vsync: u16,
)
    requires
        server.idle(),
        groovy::is_cut(chunks, frame),
        frame.len() > 0,
        raw_length(server.tally) == frame.len(),
    ensures
        server.ran(
            seq![groovy::blit_packet(frame_num, field, vsync, None)] + chunks,
        ) == (ServerModel {
            tally: blit_finished(
                server.tally,
                BlitModel { frame_num, field, expected: frame.len(), payload: frame },
            ),
            ..server
        }),
{
    let header = groovy::blit_packet(frame_num, field, vsync, None);
    let datagrams = seq![header] + chunks;
    assert(datagrams[0] == header);
    let a = seq![groovy::CMD_BLIT];
    bytes::law_read_written_32(a, frame_num, seq![field] + bytes::le16(vsync));
    assert(a + bytes::le32(frame_num) + (seq![field] + bytes::le16(vsync)) =~= header);
    assert(header[0] == groovy::CMD_BLIT);
    assert(header[5] == field);
    let next = server.stepped(header);
    assert(datagrams.skip(1) =~= chunks);
    lemma_payload_completes_blit(next, chunks, frame);
    assert(Seq::<u8>::empty() + frame =~= frame);
}

/// No datagram takes anything back: counts do not fall, and errors stay.
pub proof fn law_counts_do_not_fall(server: ServerModel, data: Seq<u8>)
    ensures
        ({
            let before = server.tally;
            let after = server.stepped(data).tally;
            &&& before.init_count <= after.init_count
            &&& before.switchres_count <= after.switchres_count
            &&& before.blit_count <= after.blit_count
            &&& before.audio_count <= after.audio_count
            &&& before.close_count <= after.close_count
            &&& before.status_request_count <= after.status_request_count
            &&& before.total_blit_bytes <= after.total_blit_bytes
            &&& before.total_audio_bytes <= after.total_audio_bytes
            &&& before.errors.len() <= after.errors.len()
            &&& before.errors == after.errors.take(before.errors.len() as int)
        }),
{
}

/// Something that is sent during a session.
pub ghost enum Sent {
    Field(SentField),
    Audio(SentAudio),
}

impl Sent {
    /// Whether this is as a sender makes it.
    pub open spec fn is_made(self) -> bool {
        match self {
            Sent::Field(field) => field.is_made(),
            Sent::Audio(audio) => audio.is_made(),
        }
    }

    /// Whether a receiver can look into it within machine limits.
    pub open spec fn is_decompressible(self) -> bool {
        self matches Sent::Field(field) ==> lz4::decompressible(field.compressed)
    }

    /// Whether it is a field of ordinary length, or no field.
    pub open spec fn is_ordinary(self) -> bool {
        self matches Sent::Field(field) ==> field.frame.len() <= lz4::ORDINARY_LENGTH
    }

    /// The datagrams that are sent.
    pub open spec fn datagrams(self) -> Seq<Seq<u8>> {
        match self {
            Sent::Field(field) => field.datagrams(),
            Sent::Audio(audio) => audio.datagrams(),
        }
    }

    /// The counts after it was received.
    pub open spec fn counted(self, tally: Tally) -> Tally {
        match self {
            Sent::Field(field) => tally.blitted(
                field.frame_num,
                field.field,
                field.compressed.len(),
            ),
            Sent::Audio(audio) => tally.heard(audio.pcm.len()),
        }
    }
}

/// The datagrams of several things, one after the other.
pub open spec fn stream(things: Seq<Sent>) -> Seq<Seq<u8>>
    decreases things.len(),
{
    if things.len() == 0 {
        seq![]
    } else {
        stream(things.drop_last()) + things.last().datagrams()
    }
}

/// The counts after several things were received.
pub open spec fn played(tally: Tally, things: Seq<Sent>) -> Tally
    decreases things.len(),
{
    if things.len() == 0 {
        tally
    } else {
        things.last().counted(played(tally, things.drop_last()))
    }
}

/// The fields among several things, in their order.
pub open spec fn fields_of(things: Seq<Sent>) -> Seq<SentField>
    decreases things.len(),
{
    if things.len() == 0 {
        seq![]
    } else {
        match things.last() {
            Sent::Field(field) => fields_of(things.drop_last()).push(field),
            Sent::Audio(_) => fields_of(things.drop_last()),
        }
    }
}

/// The blocks of audio among several things, in their order.
pub open spec fn sounds_of(things: Seq<Sent>) -> Seq<SentAudio>
    decreases things.len(),
{
    if things.len() == 0 {
        seq![]
    } else {
        match things.last() {
            Sent::Field(_) => sounds_of(things.drop_last()),
            Sent::Audio(audio) => sounds_of(things.drop_last()).push(audio),
        }
    }
}

/// The bytes of several fields in compressed form.
pub open spec fn compressed_bytes(fields: Seq<SentField>) -> nat
    decreases fields.len(),
{
    if fields.len() == 0 {
        0
    } else {
        compressed_bytes(fields.drop_last()) + fields.last().compressed.len()
    }
}

/// The bytes of several blocks of audio.
pub open spec fn sound_bytes(sounds: Seq<SentAudio>) -> nat
    decreases sounds.len(),
{
    if sounds.len() == 0 {
        0
    } else {
        sound_bytes(sounds.drop_last()) + sounds.last().pcm.len()
    }
}

/// The counts after fields and blocks of audio, in any order: as many more of each as there are, the
/// bytes of all of them, and the last field's numbers. Nothing else changes.
pub proof fn law_counts_add_up(tally: Tally, things: Seq<Sent>)
    ensures
        ({
            let fields = fields_of(things);
            let sounds = sounds_of(things);
            played(tally, things) == (Tally {
                blit_count: tally.blit_count + fields.len(),
                total_blit_bytes: tally.total_blit_bytes + compressed_bytes(fields),
                last_blit_frame: if fields.len() > 0 {
                    fields.last().frame_num
                } else {
                    tally.last_blit_frame
                },
                last_blit_field: if fields.len() > 0 {
                    fields.last().field
                } else {
                    tally.last_blit_field
                },
                audio_count: tally.audio_count + sounds.len(),
                total_audio_bytes: tally.total_audio_bytes + sound_bytes(sounds),
                ..tally
            })
        }),
    decreases things.len(),
{
    if things.len() > 0 {
        let rest = things.drop_last();
        law_counts_add_up(tally, rest);
        match things.last() {
            Sent::Field(field) => {
                assert(fields_of(rest).push(field).drop_last() =~= fields_of(rest));
            },
            Sent::Audio(audio) => {
                assert(sounds_of(rest).push(audio).drop_last() =~= sounds_of(rest));
            },
        }
    }
}

/// Where fields have the same size in compressed form, their bytes are that size times their number.
pub proof fn law_equal_fields_add_up(fields: Seq<SentField>, size: nat)
    requires
        forall|i: int| 0 <= i < fields.len() ==> (#[trigger] fields[i]).compressed.len() == size,
    ensures
        compressed_bytes(fields) == fields.len() * size,
    decreases fields.len(),
{
    if fields.len() > 0 {
        let rest = fields.drop_last();
        assert forall|i: int| 0 <= i < rest.len() implies (#[trigger] rest[i]).compressed.len()
            == size by {
            assert(rest[i] == fields[i]);
        }
        law_equal_fields_add_up(rest, size);
        assert(fields.last() == fields[fields.len() - 1]);
        assert((rest.len() + 1) * size == rest.len() * size + size) by (nonlinear_arith);
    } else {
        assert(0 * size == 0) by (nonlinear_arith);
    }
}

/// Datagrams one after the other lead through the state after the first of them, and can be handled
/// where the first can, and the others behind them.
pub proof fn law_datagrams_in_turn(server: ServerModel, first: Seq<Seq<u8>>, second: Seq<Seq<u8>>)
    ensures
        server.ran(first + second) == server.ran(first).ran(second),
        server.accepts_all(first + second) == (server.accepts_all(first) && server.ran(
            first,
        ).accepts_all(second)),
    decreases first.len(),
{
    if first.len() == 0 {
        assert(first + second =~= second);
    } else {
        law_datagrams_in_turn(server.stepped(first[0]), first.skip(1), second);
        assert((first + second)[0] == first[0]);
        assert((first + second).skip(1) =~= first.skip(1) + second);
    }
}

/// Fields and blocks of audio are taken in full, in any order and however each is cut into
/// datagrams: the receiver counts each of them once, finds nothing wrong, and waits for the next
/// command. Within machine limits each of the datagrams can be handled.
pub proof fn law_stream_is_taken(server: ServerModel, things: Seq<Sent>)
    requires
        server.idle(),
        forall|i: int| 0 <= i < things.len() ==> (#[trigger] things[i]).is_made(),
    ensures
        server.ran(stream(things)) == (ServerModel {
            tally: played(server.tally, things),
            ..server
        }),
        server.tally.fits() && played(server.tally, things).fits() && (forall|i: int|
            0 <= i < things.len() ==> (#[trigger] things[i]).is_decompressible())
            ==> server.accepts_all(stream(things)),
    decreases things.len(),
{
    if things.len() > 0 {
        let rest = things.drop_last();
        let last = things.last();
        assert(last == things[things.len() - 1]);
        assert forall|i: int| 0 <= i < rest.len() implies (#[trigger] rest[i]).is_made() by {
            assert(rest[i] == things[i]);
        }
        law_stream_is_taken(server, rest);
        law_datagrams_in_turn(server, stream(rest), last.datagrams());
        let between = server.ran(stream(rest));
        match last {
            Sent::Field(field) => {
                law_field_is_taken(between, field);
            },
            Sent::Audio(audio) => {
                law_audio_is_taken(between, audio);
            },
        }
        if forall|i: int| 0 <= i < things.len() ==> (#[trigger] things[i]).is_decompressible() {
            assert forall|i: int| 0 <= i < rest.len() implies (
            #[trigger] rest[i]).is_decompressible() by {
                assert(rest[i] == things[i]);
            }
        }
    }
}

/// The datagrams of a session: the two commands that start it, fields and blocks of audio in any
/// order, and the command that ends it.
pub open spec fn session(m: Modeline, things: Seq<Sent>) -> Seq<Seq<u8>> {
    seq![groovy::init_packet(1, 3, 2, 0), groovy::switchres_packet(m)] + stream(things) + seq![
        groovy::close_packet(),
    ]
}

/// A whole session leaves the counts that it should, and no error: one of each command, every field
/// and every block of audio with all their bytes, the last field's numbers, the settings, and the
/// mode as it was sent. Within machine limits each of its datagrams can be handled.
pub proof fn law_session_is_taken(m: Modeline, things: Seq<Sent>)
    requires
        forall|i: int| 0 <= i < things.len() ==> (#[trigger] things[i]).is_made(),
    ensures
        ({
            let after = ServerModel::initial().ran(session(m, things));
            let fields = fields_of(things);
            let sounds = sounds_of(things);
            &&& after.idle()
            &&& after.tally == (Tally {
                init_count: 1,
                switchres_count: 1,
                blit_count: fields.len(),
                audio_count: sounds.len(),
                close_count: 1,
                status_request_count: 0,
                total_blit_bytes: compressed_bytes(fields),
                total_audio_bytes: sound_bytes(sounds),
                last_init: Some(
                    InitState { compression: 1, sample_rate: 3, channels: 2, rgb_mode: 0 },
                ),
                last_switchres: Some(
                    SwitchresState {
                        p_clock: m.p_clock,
                        h_active: m.h_active,
                        h_begin: m.h_begin,
                        h_end: m.h_end,
                        h_total: m.h_total,
                        v_active: m.v_active,
                        v_begin: m.v_begin,
                        v_end: m.v_end,
                        v_total: m.v_total,
                        interlace: m.interlace,
                    },
                ),
                last_blit_frame: if fields.len() > 0 {
                    fields.last().frame_num
                } else {
                    0
                },
                last_blit_field: if fields.len() > 0 {
                    fields.last().field
                } else {
                    0
                },
                errors: seq![],
            })
            &&& after.tally.fits() && (forall|i: int|
                0 <= i < things.len() ==> (#[trigger] things[i]).is_decompressible())
                ==> ServerModel::initial().accepts_all(session(m, things))
        }),
{
    let start = ServerModel::initial();
    let opening = seq![groovy::init_packet(1, 3, 2, 0), groovy::switchres_packet(m)];
    let closing = seq![groovy::close_packet()];
    law_init_is_taken(start, 1, 3, 2, 0);
    let greeted = start.stepped(opening[0]);
    law_switchres_is_taken(greeted, m);
    let ready = greeted.stepped(opening[1]);
    assert(opening.skip(1)[0] == opening[1]);
    assert(opening.skip(1).skip(1) =~= seq![]);
    assert(ready.ran(opening.skip(1).skip(1)) == ready);
    assert(greeted.ran(opening.skip(1)) == ready);
    assert(start.ran(opening) == ready);
    assert(ready.accepts_all(opening.skip(1).skip(1)));
    assert(greeted.accepts_all(opening.skip(1)));
    assert(start.accepts_all(opening));
    law_datagrams_in_turn(start, opening, stream(things));
    law_stream_is_taken(ready, things);
    law_counts_add_up(ready.tally, things);
    let shown = ready.ran(stream(things));
    law_datagrams_in_turn(start, opening + stream(things), closing);
    law_close_is_counted(shown);
    assert(closing.skip(1) =~= seq![]);
    let closed = shown.stepped(closing[0]);
    assert(closed.ran(closing.skip(1)) == closed);
    assert(shown.ran(closing) == closed);
    assert(closed.accepts_all(closing.skip(1)));
    assert(closed.tally.fits() ==> shown.accepts_all(closing));
    assert(start.ran(session(m, things)).tally.errors =~= seq![]);
}

/// Every datagram of a session with fields of ordinary length, as all preset modes have them, can be
/// handled, whatever the fields show, as long as the counts fit their types.
pub proof fn law_ordinary_session_is_accepted(m: Modeline, things: Seq<Sent>)
    requires
        forall|i: int| 0 <= i < things.len() ==> (#[trigger] things[i]).is_made(),
        forall|i: int| 0 <= i < things.len() ==> (#[trigger] things[i]).is_ordinary(),
        ServerModel::initial().ran(session(m, things)).tally.fits(),
    ensures
        ServerModel::initial().accepts_all(session(m, things)),
{
    assert forall|i: int| 0 <= i < things.len() implies (
    #[trigger] things[i]).is_decompressible() by {
        assert(things[i].is_made() && things[i].is_ordinary());
        if let Sent::Field(field) = things[i] {
            lz4::law_ordinary_input_is_decompressible(field.frame, field.compressed);
        }
    }
    law_session_is_taken(m, things);
}

/// A field of a preset mode has ordinary length.
pub proof fn law_preset_fields_are_ordinary(i: int)
    requires
        0 <= i < groovy::preset_modelines().len(),
    ensures
        groovy::preset_modelines()[i].field_length() <= lz4::ORDINARY_LENGTH,
{
    let m = groovy::preset_modelines()[i];
    assert(m.h_active <= 720 && m.v_active <= 576);
    assert(m.h_active * m.field_rows() <= 720 * 576) by (nonlinear_arith)
        requires
            0 <= m.h_active <= 720,
            0 <= m.field_rows() <= 576,
    ;
}

/// A command of the wrong size and a command that is not known are recorded as such, with the size
/// or the command, and change nothing else.
pub proof fn law_wrong_commands_are_recorded(server: ServerModel, data: Seq<u8>)
    requires
        server.idle(),
        data.len() > 0,
    ensures
        ({
            let n = data.len();
            let after = server.stepped(data);
            let failed = |fault: Fault|
                ServerModel {
                    tally: Tally { errors: server.tally.errors.push(fault), ..server.tally },
                    ..server
                };
            &&& data[0] == 2 && n != 5 ==> after == failed(Fault::InitWrongSize(n))
            &&& data[0] == 3 && n != 26 ==> after == failed(Fault::SwitchresWrongSize(n))
            &&& data[0] == 7 && n < 8 ==> after == failed(Fault::BlitHeaderWrongSize(n))
            &&& data[0] == 4 && n < 3 ==> after == failed(Fault::AudioHeaderWrongSize(n))
            &&& data[0] == 0 || data[0] == 6 || data[0] > 7 ==> after == failed(
                Fault::UnknownCommand(data[0]),
            )
        }),
{
}

/// A request for the status is counted, and answered with the number of the last field.
pub proof fn law_status_is_reported(server: ServerModel, data: Seq<u8>)
    requires
        server.idle(),
        data.len() > 0,
        data[0] == 5,
    ensures
        server.stepped(data) == (ServerModel {
            tally: Tally {
                status_request_count: server.tally.status_request_count + 1,
                ..server.tally
            },
            ..server
        }),
        server.reply(data) matches Some(report) && {
            &&& report.len() == 13
            &&& groovy::reported(report).frame_echo == server.tally.last_blit_frame
            &&& groovy::reported(report).frame == server.tally.last_blit_frame
            &&& groovy::reported(report).vram_ready
            &&& groovy::reported(report).vram_synced
        },
{
    let frame_num = server.tally.last_blit_frame;
    groovy::law_status_round_trip(frame_num, 0, frame_num, 50, 5);
}

/// An answer goes to commands only: to those that start a session, set a mode or announce a field,
/// and to the request for the status. Payload is taken silently, and an empty datagram does nothing.
pub proof fn law_commands_alone_are_answered(server: ServerModel, data: Seq<u8>)
    ensures
        server.reply(data) is Some <==> server.idle() && data.len() > 0 && (data[0] == 2 || data[0]
            == 3 || data[0] == 5 || data[0] == 7 && data.len() >= 8),
        data.len() == 0 ==> server.stepped(data) == server,
        server.reply(data) matches Some(report) ==> report.len() == 13,
{
    groovy::law_status_round_trip(0, 0, 0, 0, 5);
    let frame_num = bytes::at32(data, 1);
    groovy::law_status_round_trip(frame_num, 0, frame_num, 100, 7);
    let last = server.tally.last_blit_frame;
    groovy::law_status_round_trip(last, 0, last, 50, 5);
}

/// Payload that is on its way is collected: a datagram that does not complete it is kept behind what
/// came before, and nothing is counted yet.
pub proof fn law_payload_is_collected(server: ServerModel, data: Seq<u8>)
    requires
        data.len() > 0,
    ensures
        server.blit matches Some(blit) && blit.payload.len() + data.len() < blit.expected ==> {
            &&& server.stepped(data).tally == server.tally
            &&& server.stepped(data).audio == server.audio
            &&& server.stepped(data).blit == Some(
                BlitModel { payload: server.blit->0.payload + data, ..server.blit->0 },
            )
        },
        server.blit is None ==> (server.audio matches Some(audio) && audio.payload.len()
            + data.len() < audio.expected ==> {
            &&& server.stepped(data).tally == server.tally
            &&& server.stepped(data).blit is None
            &&& server.stepped(data).audio == Some(
                AudioModel { payload: server.audio->0.payload + data, ..server.audio->0 },
            )
        }),
{
}

/// A field that came together is counted once with all of its bytes. It is right just where its
/// first bytes, as many as were announced, are an LZ4 block; else one error says what is wrong, and
/// nothing else changes.
pub proof fn law_broken_field_is_recorded(server: ServerModel, data: Seq<u8>)
    requires
        data.len() > 0,
        server.blit matches Some(blit) && blit.payload.len() + data.len() >= blit.expected,
    ensures
        ({
            let blit = server.blit->0;
            let before = server.tally;
            let after = server.stepped(data).tally;
            let block = (blit.payload + data).take(blit.expected as int);
            &&& server.stepped(data).blit is None
            &&& after.blit_count == before.blit_count + 1
            &&& after.total_blit_bytes == before.total_blit_bytes + blit.payload.len() + data.len()
            &&& after.last_blit_frame == blit.frame_num
            &&& after.last_blit_field == blit.field
            &&& after.audio_count == before.audio_count
            &&& after.close_count == before.close_count
            &&& after.init_count == before.init_count
            &&& after.last_switchres == before.last_switchres
            &&& match lz4::lz4_decompressed(block) {
                Ok(_) => after.errors == before.errors,
                Err(text) => after.errors == before.errors.push(Fault::Lz4DecompressFailed(text)),
            }
        }),
{
}

/// A block of audio that came together is counted once, with as many bytes as were announced.
pub proof fn law_audio_is_counted_as_announced(server: ServerModel, data: Seq<u8>)
    requires
        data.len() > 0,
        server.blit is None,
        server.audio matches Some(audio) && audio.payload.len() + data.len() >= audio.expected,
    ensures
        ({
            let before = server.tally;
            let after = server.stepped(data).tally;
            &&& server.stepped(data).audio is None
            &&& after.audio_count == before.audio_count + 1
            &&& after.total_audio_bytes == before.total_audio_bytes + server.audio->0.expected
            &&& after.errors == before.errors
            &&& after.blit_count == before.blit_count
        }),
{
}

/// After a mode was set, the bytes that an uncompressed field is expected to have are those of a
/// field of that mode; before, none are.
pub proof fn law_raw_field_has_the_size_of_the_mode(server: ServerModel, m: Modeline)
    requires
        server.idle(),
    ensures
        raw_length(server.stepped(groovy::switchres_packet(m)).tally) == m.field_length(),
        raw_length(Tally::empty()) == 0,
{
    law_switchres_is_taken(server, m);
}

/// The commands of a session are told apart by their first byte, and have the sizes that the
/// receiver looks for.
pub proof fn law_commands_have_their_bytes(m: Modeline, size: u16)
    ensures
        groovy::close_packet() == seq![1u8],
        groovy::init_packet(1, 3, 2, 0) == seq![2u8, 1, 3, 2, 0],
        groovy::switchres_packet(m).len() == 26,
        groovy::switchres_packet(m)[0] == 3,
        groovy::audio_packet(size).len() == 3,
        groovy::audio_packet(size)[0] == 4,
{
    law_switchres_round_trip(m);
    assert(groovy::close_packet() =~= seq![1u8]);
    assert(groovy::init_packet(1, 3, 2, 0) =~= seq![2u8, 1, 3, 2, 0]);
}

/// The model of a receiver says all that was counted and what is on its way.
pub proof fn law_server_model_says_everything(server: MockGroovyServer)
    ensures
        ({
            let stats = server.stats;
            let tally = server@.tally;
            &&& tally.init_count == stats.init_count
            &&& tally.switchres_count == stats.switchres_count
            &&& tally.blit_count == stats.blit_count
            &&& tally.audio_count == stats.audio_count
            &&& tally.close_count == stats.close_count
            &&& tally.status_request_count == stats.status_request_count
            &&& tally.total_blit_bytes == stats.total_blit_bytes
            &&& tally.total_audio_bytes == stats.total_audio_bytes
            &&& tally.last_init == stats.last_init
            &&& tally.last_switchres == stats.last_switchres
            &&& tally.last_blit_frame == stats.last_blit_frame
            &&& tally.last_blit_field == stats.last_blit_field
            &&& tally.errors.len() == stats.errors@.len()
            &&& forall|i: int|
                0 <= i < stats.errors@.len() ==> #[trigger] tally.errors[i]
                    == stats.errors@[i].fault()
            &&& server@.blit is Some <==> server.pending_blit is Some
            &&& server.pending_blit matches Some(blit) ==> server@.blit == Some(
                BlitModel {
                    frame_num: blit.frame_num,
                    field: blit.field,
                    expected: blit.expected_size as nat,
                    payload: blit.payload@,
                },
            )
            &&& server@.audio is Some <==> server.pending_audio is Some
            &&& server.pending_audio matches Some(audio) ==> server@.audio == Some(
                AudioModel { expected: audio.expected_size as nat, payload: audio.payload@ },
            )
        }),
{
}

} // verus!
