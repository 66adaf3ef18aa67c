//! The Plex media server: the addresses to ask, and what its answers say.

use crate::language;
use crate::text;
use crate::xml;
use crate::xml::{Tag, TagModel};
use vstd::prelude::*;
use vstd::string::*;

verus! {

/// A Plex server and the token that it is asked with.
pub struct PlexClient {
    pub base_url: String,
    pub token: String,
}

/// A library of the server.
#[derive(Clone, Debug)]
pub struct Library {
    pub key: String,
    pub title: String,
    /// What the library holds: `show`, `movie`, `artist`.
    pub lib_type: String,
}

/// What a [`Library`] says.
pub ghost struct LibraryModel {
    pub key: Seq<char>,
    pub title: Seq<char>,
    pub lib_type: Seq<char>,
}

impl View for Library {
    type V = LibraryModel;

    open spec fn view(&self) -> LibraryModel {
        LibraryModel { key: self.key@, title: self.title@, lib_type: self.lib_type@ }
    }
}

/// A show or a film.
#[derive(Clone, Debug)]
pub struct Show {
    pub title: String,
    pub rating_key: u64,
    /// The title of the library that it came from.
    pub library: String,
}

/// What a [`Show`] says.
pub ghost struct ShowModel {
    pub title: Seq<char>,
    pub rating_key: u64,
    pub library: Seq<char>,
}

impl View for Show {
    type V = ShowModel;

    open spec fn view(&self) -> ShowModel {
        ShowModel {
            title: self.title@,
            rating_key: self.rating_key,
            library: self.library@,
        }
    }
}

/// An episode of a show.
#[derive(Clone, Debug)]
pub struct Episode {
    pub title: String,
    pub rating_key: u64,
    pub season: u32,
    pub episode: u32,
    pub view_count: u32,
    pub show_title: String,
}

/// What an [`Episode`] says.
pub ghost struct EpisodeModel {
    pub title: Seq<char>,
    pub rating_key: u64,
    pub season: u32,
    pub episode: u32,
    pub view_count: u32,
    pub show_title: Seq<char>,
}

impl View for Episode {
    type V = EpisodeModel;

    open spec fn view(&self) -> EpisodeModel {
        EpisodeModel {
            title: self.title@,
            rating_key: self.rating_key,
            season: self.season,
            episode: self.episode,
            view_count: self.view_count,
            show_title: self.show_title@,
        }
    }
}

/// Something to go on watching.
#[derive(Clone, Debug)]
pub struct OnDeckItem {
    pub title: String,
    pub show_title: String,
    pub rating_key: u64,
    pub season: u32,
    pub episode: u32,
    /// How far it was watched, in milliseconds.
    pub view_offset: u64,
    /// `episode` or `movie`.
    pub item_type: String,
}

/// What an [`OnDeckItem`] says.
pub ghost struct OnDeckModel {
    pub title: Seq<char>,
    pub show_title: Seq<char>,
    pub rating_key: u64,
    pub season: u32,
    pub episode: u32,
    pub view_offset: u64,
    pub item_type: Seq<char>,
}

impl View for OnDeckItem {
    type V = OnDeckModel;

    open spec fn view(&self) -> OnDeckModel {
        OnDeckModel {
            title: self.title@,
            show_title: self.show_title@,
            rating_key: self.rating_key,
            season: self.season,
            episode: self.episode,
            view_offset: self.view_offset,
            item_type: self.item_type@,
        }
    }
}

/// How to play something.
#[derive(Debug)]
pub struct MediaInfo {
    pub direct_play_url: String,
    pub title: String,
    pub duration_ms: u64,
    pub view_offset_ms: u64,
    pub audio_stream_index: Option<u32>,
    pub subtitle_stream_index: Option<u32>,
    pub subtitle_codec: Option<String>,
}

/// What a [`MediaInfo`] says.
pub ghost struct MediaModel {
    pub direct_play_url: Seq<char>,
    pub title: Seq<char>,
    pub duration_ms: u64,
    pub view_offset_ms: u64,
    pub audio_stream_index: Option<u32>,
    pub subtitle_stream_index: Option<u32>,
    pub subtitle_codec: Option<Seq<char>>,
}

impl View for MediaInfo {
    type V = MediaModel;

    open spec fn view(&self) -> MediaModel {
        MediaModel {
            direct_play_url: self.direct_play_url@,
            title: self.title@,
            duration_ms: self.duration_ms,
            view_offset_ms: self.view_offset_ms,
            audio_stream_index: self.audio_stream_index,
            subtitle_stream_index: self.subtitle_stream_index,
            subtitle_codec: match self.subtitle_codec {
                Some(codec) => Some(codec@),
                None => None,
            },
        }
    }
}

/// Why something cannot be played.
#[derive(Clone, Copy, Debug, PartialEq, Eq, Structural)]
pub enum MediaError {
    /// The server names no file to play.
    NoPart,
}

impl MediaError {
    /// The error in words.
    pub fn message(&self) -> (words: String)
        ensures
            words@ == "No playable media part found"@,
    {
        "No playable media part found".to_string()
    }
}

/// The models of a list of libraries.
pub open spec fn library_models(list: Seq<Library>) -> Seq<LibraryModel> {
    list.map_values(|x: Library| x@)
}

/// The models of a list of shows.
pub open spec fn show_models(list: Seq<Show>) -> Seq<ShowModel> {
    list.map_values(|x: Show| x@)
}

/// The models of a list of episodes.
pub open spec fn episode_models(list: Seq<Episode>) -> Seq<EpisodeModel> {
    list.map_values(|x: Episode| x@)
}

/// The models of a list of things to go on watching.
pub open spec fn on_deck_models(list: Seq<OnDeckItem>) -> Seq<OnDeckModel> {
    list.map_values(|x: OnDeckItem| x@)
}

/// The library that a tag describes: a `Directory` with a key.
pub open spec fn library_in(tag: TagModel) -> Option<LibraryModel> {
    if xml::spells(tag.name, "Directory"@) && tag.attribute("key"@).len() > 0 {
        Some(
            LibraryModel {
                key: tag.attribute("key"@),
                title: tag.attribute("title"@),
                lib_type: tag.attribute("type"@),
            },
        )
    } else {
        None
    }
}

/// The libraries that tags describe, in their order.
pub open spec fn libraries_in(tags: Seq<TagModel>) -> Seq<LibraryModel>
    decreases tags.len(),
{
    if tags.len() == 0 {
        seq![]
    } else {
        match library_in(tags.last()) {
            Some(library) => libraries_in(tags.drop_last()).push(library),
            None => libraries_in(tags.drop_last()),
        }
    }
}

/// The rating key that a tag gives, zero where it gives none.
pub open spec fn rating_key(tag: TagModel) -> u64 {
    tag.number("ratingKey"@, u64::MAX as int) as u64
}

/// The show or film that a tag describes: a `Directory` or a `Video` with a rating key. The library
/// is left open.
pub open spec fn show_in(tag: TagModel) -> Option<ShowModel> {
    if (xml::spells(tag.name, "Directory"@) || xml::spells(tag.name, "Video"@)) && rating_key(tag)
        > 0 {
        Some(
            ShowModel {
                title: tag.attribute("title"@),
                rating_key: rating_key(tag),
                library: seq![],
            },
        )
    } else {
        None
    }
}

/// The shows and films that tags describe, in their order.
pub open spec fn shows_in(tags: Seq<TagModel>) -> Seq<ShowModel>
    decreases tags.len(),
{
    if tags.len() == 0 {
        seq![]
    } else {
        match show_in(tags.last()) {
            Some(show) => shows_in(tags.drop_last()).push(show),
            None => shows_in(tags.drop_last()),
        }
    }
}

/// The episode that a tag describes: a `Video` with a rating key.
pub open spec fn episode_in(tag: TagModel) -> Option<EpisodeModel> {
    if xml::spells(tag.name, "Video"@) && rating_key(tag) > 0 {
        Some(
            EpisodeModel {
                title: tag.attribute("title"@),
                rating_key: rating_key(tag),
                season: tag.number("parentIndex"@, u32::MAX as int) as u32,
                episode: tag.number("index"@, u32::MAX as int) as u32,
                view_count: tag.number("viewCount"@, u32::MAX as int) as u32,
                show_title: tag.attribute("grandparentTitle"@),
            },
        )
    } else {
        None
    }
}

/// The episodes that tags describe, in their order.
pub open spec fn episodes_in(tags: Seq<TagModel>) -> Seq<EpisodeModel>
    decreases tags.len(),
{
    if tags.len() == 0 {
        seq![]
    } else {
        match episode_in(tags.last()) {
            Some(episode) => episodes_in(tags.drop_last()).push(episode),
            None => episodes_in(tags.drop_last()),
        }
    }
}

/// The thing to go on watching that a tag describes: a `Video` with a rating key.
pub open spec fn on_deck_in(tag: TagModel) -> Option<OnDeckModel> {
    if xml::spells(tag.name, "Video"@) && rating_key(tag) > 0 {
        Some(
            OnDeckModel {
                title: tag.attribute("title"@),
                show_title: tag.attribute("grandparentTitle"@),
                rating_key: rating_key(tag),
                season: tag.number("parentIndex"@, u32::MAX as int) as u32,
                episode: tag.number("index"@, u32::MAX as int) as u32,
                view_offset: tag.number("viewOffset"@, u64::MAX as int) as u64,
                item_type: tag.attribute("type"@),
            },
        )
    } else {
        None
    }
}

/// The things to go on watching that tags describe, in their order.
pub open spec fn on_deck_items_in(tags: Seq<TagModel>) -> Seq<OnDeckModel>
    decreases tags.len(),
{
    if tags.len() == 0 {
        seq![]
    } else {
        match on_deck_in(tags.last()) {
            Some(item) => on_deck_items_in(tags.drop_last()).push(item),
            None => on_deck_items_in(tags.drop_last()),
        }
    }
}

proof fn lemma_take_next<T>(list: Seq<T>, i: int)
    requires
        0 <= i < list.len(),
    ensures
        list.take(i + 1).drop_last() == list.take(i),
        list.take(i + 1).last() == list[i],
{
    assert(list.take(i + 1).drop_last() =~= list.take(i));
}

/// The libraries that tags describe.
pub fn parse_libraries(tags: &Vec<Tag>) -> (libraries: Vec<Library>)
    ensures
        library_models(libraries@) == libraries_in(xml::tag_models(tags@)),
{
    let mut libraries: Vec<Library> = Vec::new();
    let ghost models = xml::tag_models(tags@);
    let mut i: usize = 0;
    assert(library_models(libraries@) =~= libraries_in(models.take(0)));
    while i < tags.len()
        invariant
            i <= tags@.len(),
            models == xml::tag_models(tags@),
            library_models(libraries@) == libraries_in(models.take(i as int)),
        decreases tags@.len() - i,
    {
        let ghost before = libraries@;
        proof {
            lemma_take_next(models, i as int);
        }
        if tags[i].is_named("Directory") {
            let key: String = tags[i].attr_str("key");
            let title: String = tags[i].attr_str("title");
            let lib_type: String = tags[i].attr_str("type");
            if !text::is_empty(key.as_str()) {
                let library = Library { key, title, lib_type };
                libraries.push(library);
                assert(library_models(libraries@) =~= library_models(before).push(library@));
            }
        }
        i += 1;
    }
    assert(models.take(models.len() as int) =~= models);
    libraries
}

/// The shows and films that tags describe.
pub fn parse_shows(tags: &Vec<Tag>) -> (shows: Vec<Show>)
    ensures
        show_models(shows@) == shows_in(xml::tag_models(tags@)),
{
    let mut shows: Vec<Show> = Vec::new();
    let ghost models = xml::tag_models(tags@);
    let mut i: usize = 0;
    assert(show_models(shows@) =~= shows_in(models.take(0)));
    while i < tags.len()
        invariant
            i <= tags@.len(),
            models == xml::tag_models(tags@),
            show_models(shows@) == shows_in(models.take(i as int)),
        decreases tags@.len() - i,
    {
        let ghost before = shows@;
        proof {
            lemma_take_next(models, i as int);
        }
        if tags[i].is_named("Directory") || tags[i].is_named("Video") {
            let key: u64 = tags[i].attr_u64("ratingKey");
            if key > 0 {
                let show = Show {
                    title: tags[i].attr_str("title"),
                    rating_key: key,
                    library: String::new(),
                };
                shows.push(show);
                assert(show@.library =~= seq![]);
                assert(show_models(shows@) =~= show_models(before).push(show@));
            }
        }
        i += 1;
    }
    assert(models.take(models.len() as int) =~= models);
    shows
}

/// The episodes that tags describe.
pub fn parse_episodes(tags: &Vec<Tag>) -> (episodes: Vec<Episode>)
    ensures
        episode_models(episodes@) == episodes_in(xml::tag_models(tags@)),
{
    let mut episodes: Vec<Episode> = Vec::new();
    let ghost models = xml::tag_models(tags@);
    let mut i: usize = 0;
    assert(episode_models(episodes@) =~= episodes_in(models.take(0)));
    while i < tags.len()
        invariant
            i <= tags@.len(),
            models == xml::tag_models(tags@),
            episode_models(episodes@) == episodes_in(models.take(i as int)),
        decreases tags@.len() - i,
    {
        let ghost before = episodes@;
        proof {
            lemma_take_next(models, i as int);
        }
        if tags[i].is_named("Video") {
            let key: u64 = tags[i].attr_u64("ratingKey");
            if key > 0 {
                let episode = Episode {
                    title: tags[i].attr_str("title"),
                    rating_key: key,
                    season: tags[i].attr_u32("parentIndex"),
                    episode: tags[i].attr_u32("index"),
                    view_count: tags[i].attr_u32("viewCount"),
                    show_title: tags[i].attr_str("grandparentTitle"),
                };
                episodes.push(episode);
                assert(episode_models(episodes@) =~= episode_models(before).push(episode@));
            }
        }
        i += 1;
    }
    assert(models.take(models.len() as int) =~= models);
    episodes
}

/// The things to go on watching that tags describe.
pub fn parse_on_deck(tags: &Vec<Tag>) -> (items: Vec<OnDeckItem>)
    ensures
        on_deck_models(items@) == on_deck_items_in(xml::tag_models(tags@)),
{
    let mut items: Vec<OnDeckItem> = Vec::new();
    let ghost models = xml::tag_models(tags@);
    let mut i: usize = 0;
    assert(on_deck_models(items@) =~= on_deck_items_in(models.take(0)));
    while i < tags.len()
        invariant
            i <= tags@.len(),
            models == xml::tag_models(tags@),
            on_deck_models(items@) == on_deck_items_in(models.take(i as int)),
        decreases tags@.len() - i,
    {
        let ghost before = items@;
        proof {
            lemma_take_next(models, i as int);
        }
        if tags[i].is_named("Video") {
            let key: u64 = tags[i].attr_u64("ratingKey");
            if key > 0 {
                let item = OnDeckItem {
                    title: tags[i].attr_str("title"),
                    show_title: tags[i].attr_str("grandparentTitle"),
                    rating_key: key,
                    season: tags[i].attr_u32("parentIndex"),
                    episode: tags[i].attr_u32("index"),
                    view_offset: tags[i].attr_u64("viewOffset"),
                    item_type: tags[i].attr_str("type"),
                };
                items.push(item);
                assert(on_deck_models(items@) =~= on_deck_models(before).push(item@));
            }
        }
        i += 1;
    }
    assert(models.take(models.len() as int) =~= models);
    items
}

/// Every library that a document describes has a key.
pub proof fn law_libraries_have_keys(tags: Seq<TagModel>, i: int)
    requires
        0 <= i < libraries_in(tags).len(),
    ensures
        libraries_in(tags)[i].key.len() > 0,
    decreases tags.len(),
{
    if i < libraries_in(tags.drop_last()).len() {
        law_libraries_have_keys(tags.drop_last(), i);
    }
}

/// Every episode that a document describes has a rating key.
pub proof fn law_episodes_have_keys(tags: Seq<TagModel>, i: int)
    requires
        0 <= i < episodes_in(tags).len(),
    ensures
        episodes_in(tags)[i].rating_key > 0,
    decreases tags.len(),
{
    if i < episodes_in(tags.drop_last()).len() {
        law_episodes_have_keys(tags.drop_last(), i);
    }
}

/// Every show that a document describes has a rating key.
pub proof fn law_shows_have_keys(tags: Seq<TagModel>, i: int)
    requires
        0 <= i < shows_in(tags).len(),
    ensures
        shows_in(tags)[i].rating_key > 0,
    decreases tags.len(),
{
    if i < shows_in(tags.drop_last()).len() {
        law_shows_have_keys(tags.drop_last(), i);
    }
}

/// Everything to go on watching that a document describes has a rating key.
pub proof fn law_on_deck_items_have_keys(tags: Seq<TagModel>, i: int)
    requires
        0 <= i < on_deck_items_in(tags).len(),
    ensures
        on_deck_items_in(tags)[i].rating_key > 0,
    decreases tags.len(),
{
    if i < on_deck_items_in(tags.drop_last()).len() {
        law_on_deck_items_have_keys(tags.drop_last(), i);
    }
}

/// An audio or subtitle stream of a file. Of an audio stream the codec is not looked at.
#[derive(Debug)]
pub struct Stream {
    pub index: u32,
    pub language: String,
    pub codec: String,
    pub selected: bool,
}

/// What a [`Stream`] says.
pub ghost struct StreamModel {
    pub index: u32,
    pub language: Seq<char>,
    pub codec: Seq<char>,
    pub selected: bool,
}

impl View for Stream {
    type V = StreamModel;

    open spec fn view(&self) -> StreamModel {
        StreamModel {
            index: self.index,
            language: self.language@,
            codec: self.codec@,
            selected: self.selected,
        }
    }
}

/// The models of a list of streams.
pub open spec fn stream_models(list: Seq<Stream>) -> Seq<StreamModel> {
    list.map_values(|x: Stream| x@)
}

/// What the tags of a document say of one file.
pub ghost struct MediaScan {
    pub title: Seq<char>,
    pub duration_ms: u64,
    pub view_offset_ms: u64,
    pub part: Option<Seq<char>>,
    pub audio: Seq<StreamModel>,
    pub subtitles: Seq<StreamModel>,
}

impl MediaScan {
    /// Before the first tag.
    pub open spec fn empty() -> MediaScan {
        MediaScan {
            title: seq![],
            duration_ms: 0,
            view_offset_ms: 0,
            part: None,
            audio: seq![],
            subtitles: seq![],
        }
    }

    /// What a further tag adds: a `Video` gives title and times, the first `Part` with a key gives
    /// the file, and a `Stream` behind it is an audio stream (type 2) or a subtitle stream (type 3).
    pub open spec fn with(self, tag: TagModel) -> MediaScan {
        if xml::spells(tag.name, "Video"@) {
            MediaScan {
                title: tag.attribute("title"@),
                duration_ms: tag.number("duration"@, u64::MAX as int) as u64,
                view_offset_ms: tag.number("viewOffset"@, u64::MAX as int) as u64,
                ..self
            }
        } else if xml::spells(tag.name, "Part"@) && self.part is None {
            if tag.attribute("key"@).len() > 0 {
                MediaScan { part: Some(tag.attribute("key"@)), ..self }
            } else {
                self
            }
        } else if xml::spells(tag.name, "Stream"@) && self.part is Some {
            let stream = StreamModel {
                index: tag.number("index"@, u32::MAX as int) as u32,
                language: tag.attribute("languageCode"@),
                codec: seq![],
                selected: tag.attribute("selected"@) == "1"@,
            };
            if tag.attribute("streamType"@) == "2"@ {
                MediaScan { audio: self.audio.push(stream), ..self }
            } else if tag.attribute("streamType"@) == "3"@ {
                MediaScan {
                    subtitles: self.subtitles.push(
                        StreamModel { codec: tag.attribute("codec"@), ..stream },
                    ),
                    ..self
                }
            } else {
                self
            }
        } else {
            self
        }
    }
}

/// What tags say of one file.
pub open spec fn scanned(tags: Seq<TagModel>) -> MediaScan
    decreases tags.len(),
{
    if tags.len() == 0 {
        MediaScan::empty()
    } else {
        scanned(tags.drop_last()).with(tags.last())
    }
}

/// What is looked for in a list of streams.
pub enum Wanted {
    /// A stream that the server has selected.
    Selected,
    /// A stream in the language that the text asks for by name or code; the text is in lower case.
    Language(String),
    /// A stream whose language begins with the text.
    Prefix(String),
}

/// What is looked for in a list of streams.
pub ghost enum WantedModel {
    Selected,
    Language(Seq<char>),
    Prefix(Seq<char>),
}

impl View for Wanted {
    type V = WantedModel;

    open spec fn view(&self) -> WantedModel {
        match self {
            Wanted::Selected => WantedModel::Selected,
            Wanted::Language(lower) => WantedModel::Language(lower@),
            Wanted::Prefix(prefix) => WantedModel::Prefix(prefix@),
        }
    }
}

impl WantedModel {
    /// Whether a stream is what is looked for.
    pub open spec fn fits(self, stream: StreamModel) -> bool {
        match self {
            WantedModel::Selected => stream.selected,
            WantedModel::Language(lower) => language::is_in_language(
                text::lowered(stream.language),
                lower,
            ),
            WantedModel::Prefix(prefix) => prefix.is_prefix_of(stream.language),
        }
    }
}

/// The first stream that is looked for.
pub open spec fn first_fit(streams: Seq<StreamModel>, wanted: WantedModel) -> Option<StreamModel>
    decreases streams.len(),
{
    if streams.len() == 0 {
        None
    } else if wanted.fits(streams[0]) {
        Some(streams[0])
    } else {
        first_fit(streams.skip(1), wanted)
    }
}

/// The first stream that is looked for in the first of several ways in which there is one, or else
/// the first of all.
pub open spec fn best_fit(streams: Seq<StreamModel>, ways: Seq<WantedModel>) -> Option<StreamModel>
    decreases ways.len(),
{
    if ways.len() == 0 {
        if streams.len() > 0 {
            Some(streams[0])
        } else {
            None
        }
    } else if first_fit(streams, ways[0]) is Some {
        first_fit(streams, ways[0])
    } else {
        best_fit(streams, ways.skip(1))
    }
}

/// Whether a subtitle setting asks for none.
pub open spec fn subtitles_off(setting: Seq<char>) -> bool {
    text::same_ignoring_case(setting, "none"@) || setting == "off"@ || setting == "0"@
}

/// The ways in which subtitles are looked for: in the language asked for, if one is, then those
/// selected, then English.
pub open spec fn subtitle_ways(language: Option<Seq<char>>) -> Seq<WantedModel> {
    match language {
        Some(language) => seq![
            WantedModel::Language(text::lowered(language)),
            WantedModel::Selected,
            WantedModel::Prefix("eng"@),
        ],
        None => seq![WantedModel::Selected, WantedModel::Prefix("eng"@)],
    }
}

/// The subtitles to show: none where they are switched off; else in the language asked for, else
/// those selected, else English, else the first.
pub open spec fn picked_subtitle(streams: Seq<StreamModel>, setting: Option<Seq<char>>) -> Option<
    StreamModel,
> {
    if setting matches Some(s) && subtitles_off(s) {
        None
    } else {
        best_fit(streams, subtitle_ways(setting))
    }
}

/// The ways in which sound is looked for: in the language asked for, if one is, then what is
/// selected.
pub open spec fn audio_ways(language: Option<Seq<char>>) -> Seq<WantedModel> {
    match language {
        Some(language) => seq![
            WantedModel::Language(text::lowered(language)),
            WantedModel::Selected,
        ],
        None => seq![WantedModel::Selected],
    }
}

/// The sound to play: in the language asked for, else what is selected, else the first.
pub open spec fn picked_audio(streams: Seq<StreamModel>, language: Option<Seq<char>>) -> Option<
    StreamModel,
> {
    best_fit(streams, audio_ways(language))
}

/// How to play the file that tags describe; an error where they name no file.
pub open spec fn media_in(
    tags: Seq<TagModel>,
    base_url: Seq<char>,
    token: Seq<char>,
    audio_lang: Option<Seq<char>>,
    sub_lang: Option<Seq<char>>,
) -> Result<MediaModel, MediaError> {
    let scan = scanned(tags);
    let subtitle = picked_subtitle(scan.subtitles, sub_lang);
    let audio = picked_audio(scan.audio, audio_lang);
    match scan.part {
        None => Err(MediaError::NoPart),
        Some(part) => Ok(
            MediaModel {
                direct_play_url: base_url + part + "?X-Plex-Token="@ + token,
                title: scan.title,
                duration_ms: scan.duration_ms,
                view_offset_ms: scan.view_offset_ms,
                audio_stream_index: match audio {
                    Some(stream) => Some(stream.index),
                    None => None,
                },
                subtitle_stream_index: match subtitle {
                    Some(stream) => Some(stream.index),
                    None => None,
                },
                subtitle_codec: match subtitle {
                    Some(stream) => Some(stream.codec),
                    None => None,
                },
            },
        ),
    }
}

/// The view of an optional text.
pub open spec fn text_view(text: Option<&str>) -> Option<Seq<char>> {
    match text {
        Some(s) => Some(s@),
        None => None,
    }
}

impl Wanted {
    fn accepts(&self, stream: &Stream) -> (yes: bool)
        ensures
            yes == self@.fits(stream@),
    {
        match self {
            Wanted::Selected => stream.selected,
            Wanted::Language(lower) => {
                let language: String = text::lower(stream.language.as_str());
                language::speaks(language.as_str(), lower.as_str())
            },
            Wanted::Prefix(prefix) => text::starts_with(stream.language.as_str(), prefix.as_str()),
        }
    }
}

fn find_stream(streams: &Vec<Stream>, wanted: &Wanted) -> (found: Option<usize>)
    ensures
        match found {
            Some(i) => i < streams@.len() && first_fit(stream_models(streams@), wanted@) == Some(
                streams@[i as int]@,
            ),
            None => first_fit(stream_models(streams@), wanted@) is None,
        },
{
    let ghost models = stream_models(streams@);
    let mut i: usize = 0;
    assert(models.skip(0) =~= models);
    while i < streams.len()
        invariant
            i <= streams@.len(),
            models == stream_models(streams@),
            first_fit(models, wanted@) == first_fit(models.skip(i as int), wanted@),
        decreases streams@.len() - i,
    {
        assert(models.skip(i as int)[0] == models[i as int]);
        if wanted.accepts(&streams[i]) {
            return Some(i);
        }
        assert(models.skip(i as int).skip(1) =~= models.skip(i + 1));
        i += 1;
    }
    assert(models.skip(i as int) =~= seq![]);
    None
}

/// The models of several ways to look for a stream.
spec fn way_models(ways: Seq<Wanted>) -> Seq<WantedModel> {
    ways.map_values(|w: Wanted| w@)
}

fn find_best(streams: &Vec<Stream>, ways: &Vec<Wanted>) -> (found: Option<usize>)
    ensures
        match found {
            Some(i) => i < streams@.len() && best_fit(stream_models(streams@), way_models(ways@))
                == Some(streams@[i as int]@),
            None => best_fit(stream_models(streams@), way_models(ways@)) is None,
        },
{
    let ghost models = stream_models(streams@);
    let ghost wanted = way_models(ways@);
    let mut k: usize = 0;
    assert(wanted.skip(0) =~= wanted);
    while k < ways.len()
        invariant
            k <= ways@.len(),
            models == stream_models(streams@),
            wanted == way_models(ways@),
            best_fit(models, wanted) == best_fit(models, wanted.skip(k as int)),
        decreases ways@.len() - k,
    {
        assert(wanted.skip(k as int)[0] == ways@[k as int]@);
        if let Some(i) = find_stream(streams, &ways[k]) {
            return Some(i);
        }
        assert(wanted.skip(k as int).skip(1) =~= wanted.skip(k + 1));
        k += 1;
    }
    assert(wanted.skip(k as int) =~= seq![]);
    if streams.len() > 0 {
        assert(models[0] == streams@[0]@);
        Some(0)
    } else {
        None
    }
}

fn pick_subtitle(streams: &Vec<Stream>, setting: Option<&str>) -> (found: Option<usize>)
    ensures
        match found {
            Some(i) => i < streams@.len() && picked_subtitle(
                stream_models(streams@),
                text_view(setting),
            ) == Some(streams@[i as int]@),
            None => picked_subtitle(stream_models(streams@), text_view(setting)) is None,
        },
{
    let mut ways: Vec<Wanted> = Vec::new();
    if let Some(language) = setting {
        if text::equal_ignoring_case(language, "none") || text::same_text(language, "off")
            || text::same_text(language, "0") {
            return None;
        }
        ways.push(Wanted::Language(text::lower(language)));
    }
    ways.push(Wanted::Selected);
    ways.push(Wanted::Prefix("eng".to_string()));
    assert(way_models(ways@) =~= subtitle_ways(text_view(setting)));
    find_best(streams, &ways)
}

fn pick_audio(streams: &Vec<Stream>, language: Option<&str>) -> (found: Option<usize>)
    ensures
        match found {
            Some(i) => i < streams@.len() && picked_audio(
                stream_models(streams@),
                text_view(language),
            ) == Some(streams@[i as int]@),
            None => picked_audio(stream_models(streams@), text_view(language)) is None,
        },
{
    let mut ways: Vec<Wanted> = Vec::new();
    if let Some(language) = language {
        ways.push(Wanted::Language(text::lower(language)));
    }
    ways.push(Wanted::Selected);
    assert(way_models(ways@) =~= audio_ways(text_view(language)));
    find_best(streams, &ways)
}

/// What was gathered of one file so far.
struct Gathered {
    title: String,
    duration_ms: u64,
    view_offset_ms: u64,
    part: Option<String>,
    audio: Vec<Stream>,
    subtitles: Vec<Stream>,
}

impl Gathered {
    spec fn scan(self) -> MediaScan {
        MediaScan {
            title: self.title@,
            duration_ms: self.duration_ms,
            view_offset_ms: self.view_offset_ms,
            part: match self.part {
                Some(part) => Some(part@),
                None => None,
            },
            audio: stream_models(self.audio@),
            subtitles: stream_models(self.subtitles@),
        }
    }

    fn gather_stream(&mut self, tag: &Tag)
        requires
            xml::spells(tag@.name, "Stream"@),
            !xml::spells(tag@.name, "Video"@),
            !xml::spells(tag@.name, "Part"@),
            old(self).part is Some,
        ensures
            final(self).scan() == old(self).scan().with(tag@),
    {
        let stream_type: String = tag.attr_str("streamType");
        let index: u32 = tag.attr_u32("index");
        let language: String = tag.attr_str("languageCode");
        let mark: String = tag.attr_str("selected");
        let selected: bool = text::same_text(mark.as_str(), "1");
        if text::same_text(stream_type.as_str(), "2") {
            let stream = Stream { index, language, codec: String::new(), selected };
            assert(stream.codec@ =~= seq![]);
            self.audio.push(stream);
            assert(stream_models(self.audio@) =~= stream_models(old(self).audio@).push(stream@));
        } else if text::same_text(stream_type.as_str(), "3") {
            let codec: String = tag.attr_str("codec");
            let stream = Stream { index, language, codec, selected };
            self.subtitles.push(stream);
            assert(stream_models(self.subtitles@) =~= stream_models(old(self).subtitles@).push(
                stream@,
            ));
        }
    }

    fn gather(&mut self, tag: &Tag)
        ensures
            final(self).scan() == old(self).scan().with(tag@),
    {
        if tag.is_named("Video") {
            self.title = tag.attr_str("title");
            self.duration_ms = tag.attr_u64("duration");
            self.view_offset_ms = tag.attr_u64("viewOffset");
        } else if tag.is_named("Part") {
            proof {
                reveal_strlit("Part");
                reveal_strlit("Stream");
            }
            if self.part.is_none() {
                let key: String = tag.attr_str("key");
                if !text::is_empty(key.as_str()) {
                    self.part = Some(key);
                }
            }
        } else if tag.is_named("Stream") {
            if self.part.is_some() {
                self.gather_stream(tag);
            }
        }
    }
}

/// How to play the file that tags describe.
pub fn parse_media_info(
    tags: &Vec<Tag>,
    base_url: &str,
    token: &str,
    audio_lang: Option<&str>,
    sub_lang: Option<&str>,
) -> (media: Result<MediaInfo, MediaError>)
    ensures
        (match media {
            Ok(info) => Ok(info@),
            Err(error) => Err(error),
        }) == media_in(
            xml::tag_models(tags@),
            base_url@,
            token@,
            text_view(audio_lang),
            text_view(sub_lang),
        ),
{
    let mut gathered = Gathered {
        title: String::new(),
        duration_ms: 0,
        view_offset_ms: 0,
        part: None,
        audio: Vec::new(),
        subtitles: Vec::new(),
    };
    let ghost models = xml::tag_models(tags@);
    let mut i: usize = 0;
    proof {
        assert(gathered.title@ =~= seq![]);
        assert(stream_models(gathered.audio@) =~= seq![]);
        assert(stream_models(gathered.subtitles@) =~= seq![]);
        assert(models.take(0) =~= seq![]);
    }
    while i < tags.len()
        invariant
            i <= tags@.len(),
            models == xml::tag_models(tags@),
            gathered.scan() == scanned(models.take(i as int)),
        decreases tags@.len() - i,
    {
        proof {
            lemma_take_next(models, i as int);
        }
        gathered.gather(&tags[i]);
        i += 1;
    }
    assert(models.take(models.len() as int) =~= models);
    let subtitle: Option<usize> = pick_subtitle(&gathered.subtitles, sub_lang);
    let audio: Option<usize> = pick_audio(&gathered.audio, audio_lang);
    match gathered.part {
        None => Err(MediaError::NoPart),
        Some(part) => {
            let mut direct_play_url: String = String::new();
            direct_play_url.append(base_url);
            direct_play_url.append(part.as_str());
            direct_play_url.append("?X-Plex-Token=");
            direct_play_url.append(token);
            assert(direct_play_url@ =~= base_url@ + part@ + "?X-Plex-Token="@ + token@);
            let audio_stream_index: Option<u32> = match audio {
                Some(k) => Some(gathered.audio[k].index),
                None => None,
            };
            let subtitle_stream_index: Option<u32> = match subtitle {
                Some(k) => Some(gathered.subtitles[k].index),
                None => None,
            };
            let subtitle_codec: Option<String> = match subtitle {
                Some(k) => Some(gathered.subtitles[k].codec.clone()),
                None => None,
            };
            Ok(
                MediaInfo {
                    direct_play_url,
                    title: gathered.title,
                    duration_ms: gathered.duration_ms,
                    view_offset_ms: gathered.view_offset_ms,
                    audio_stream_index,
                    subtitle_stream_index,
                    subtitle_codec,
                },
            )
        },
    }
}

/// A file with sound is played with sound, whatever language is asked for.
pub proof fn law_sound_is_picked(streams: Seq<StreamModel>, language: Option<Seq<char>>)
    ensures
        picked_audio(streams, language) is Some <==> streams.len() > 0,
{
    lemma_best_fit(streams, audio_ways(language));
}

/// A file with subtitles is played with subtitles, unless none are asked for.
pub proof fn law_subtitles_are_picked(streams: Seq<StreamModel>, setting: Option<Seq<char>>)
    ensures
        picked_subtitle(streams, setting) is Some <==> streams.len() > 0 && !(setting matches Some(
            s,
        ) && subtitles_off(s)),
{
    lemma_best_fit(streams, subtitle_ways(setting));
}

/// What is picked is one of the streams.
pub proof fn law_fit_is_among_streams(streams: Seq<StreamModel>, ways: Seq<WantedModel>)
    ensures
        best_fit(streams, ways) matches Some(stream) ==> streams.contains(stream),
{
    lemma_best_fit(streams, ways);
}

/// Where a file has sound in the language that is asked for, that is what is played.
pub proof fn law_asked_sound_is_played(streams: Seq<StreamModel>, language: Seq<char>, i: int)
    requires
        0 <= i < streams.len(),
        language::is_in_language(text::lowered(streams[i].language), text::lowered(language)),
    ensures
        picked_audio(streams, Some(language)) matches Some(stream) && language::is_in_language(
            text::lowered(stream.language),
            text::lowered(language),
        ),
{
    let wanted = WantedModel::Language(text::lowered(language));
    lemma_first_fit(streams, wanted);
    assert(wanted.fits(streams[i]));
}

/// Where a file has subtitles in the language that is asked for, those are shown.
pub proof fn law_asked_subtitles_are_shown(streams: Seq<StreamModel>, language: Seq<char>, i: int)
    requires
        0 <= i < streams.len(),
        !subtitles_off(language),
        language::is_in_language(text::lowered(streams[i].language), text::lowered(language)),
    ensures
        picked_subtitle(streams, Some(language)) matches Some(stream) && language::is_in_language(
            text::lowered(stream.language),
            text::lowered(language),
        ),
{
    let wanted = WantedModel::Language(text::lowered(language));
    lemma_first_fit(streams, wanted);
    assert(wanted.fits(streams[i]));
}

/// Where a file has no subtitles in the language that is asked for, those selected are shown; where
/// none are selected, English ones; and where there are none either, the first.
pub proof fn law_subtitles_fall_back(streams: Seq<StreamModel>, language: Seq<char>)
    requires
        !subtitles_off(language),
        forall|i: int|
            0 <= i < streams.len() ==> !language::is_in_language(
                text::lowered((#[trigger] streams[i]).language),
                text::lowered(language),
            ),
    ensures
        picked_subtitle(streams, Some(language)) == picked_subtitle(streams, None),
        match picked_subtitle(streams, Some(language)) {
            Some(stream) => {
                &&& !stream.selected ==> forall|i: int|
                    0 <= i < streams.len() ==> !(#[trigger] streams[i]).selected
                &&& !stream.selected && !"eng"@.is_prefix_of(stream.language) ==> {
                    &&& stream == streams[0]
                    &&& forall|i: int|
                        0 <= i < streams.len() ==> !"eng"@.is_prefix_of(
                            (#[trigger] streams[i]).language,
                        )
                }
            },
            None => streams.len() == 0,
        },
{
    let asked = WantedModel::Language(text::lowered(language));
    let english = WantedModel::Prefix("eng"@);
    lemma_first_fit(streams, asked);
    lemma_first_fit(streams, WantedModel::Selected);
    lemma_first_fit(streams, english);
    let ways = subtitle_ways(Some(language));
    assert(first_fit(streams, asked) is None) by {
        if let Some(stream) = first_fit(streams, asked) {
            let i = choose|i: int| 0 <= i < streams.len() && streams[i] == stream;
            assert(asked.fits(streams[i]));
        }
    }
    assert(ways.skip(1) =~= subtitle_ways(None));
    reveal_with_fuel(best_fit, 4);
    assert(subtitle_ways(None)[1] == english);
    assert(subtitle_ways(None).skip(1)[0] == english);
    assert(subtitle_ways(None).skip(1).skip(1).len() == 0);
    assert(forall|i: int|
        0 <= i < streams.len() ==> WantedModel::Selected.fits(#[trigger] streams[i])
            == streams[i].selected);
    assert(forall|i: int|
        0 <= i < streams.len() ==> english.fits(#[trigger] streams[i]) == "eng"@.is_prefix_of(
            streams[i].language,
        ));
}

proof fn lemma_best_fit(streams: Seq<StreamModel>, ways: Seq<WantedModel>)
    ensures
        best_fit(streams, ways) is Some <==> streams.len() > 0,
        best_fit(streams, ways) matches Some(stream) ==> streams.contains(stream),
    decreases ways.len(),
{
    if ways.len() == 0 {
        if streams.len() > 0 {
            assert(streams.contains(streams[0]));
        }
    } else {
        lemma_first_fit(streams, ways[0]);
        lemma_best_fit(streams, ways.skip(1));
    }
}

proof fn lemma_first_fit(streams: Seq<StreamModel>, wanted: WantedModel)
    ensures
        match first_fit(streams, wanted) {
            Some(stream) => streams.contains(stream) && wanted.fits(stream),
            None => forall|i: int| 0 <= i < streams.len() ==> !wanted.fits(#[trigger] streams[i]),
        },
    decreases streams.len(),
{
    if streams.len() > 0 {
        let rest = streams.skip(1);
        lemma_first_fit(rest, wanted);
        if wanted.fits(streams[0]) {
            assert(streams.contains(streams[0]));
        } else if let Some(stream) = first_fit(rest, wanted) {
            let i = choose|i: int| 0 <= i < rest.len() && rest[i] == stream;
            assert(streams[i + 1] == stream);
        } else {
            assert forall|i: int| 0 <= i < streams.len() implies !wanted.fits(
                #[trigger] streams[i],
            ) by {
                if i > 0 {
                    assert(rest[i - 1] == streams[i]);
                }
            }
        }
    }
}

/// Whether a library is searched: it holds shows or films.
pub open spec fn is_searched(library: LibraryModel) -> bool {
    library.lib_type == "show"@ || library.lib_type == "movie"@
}

/// The libraries that are searched, in their order.
pub open spec fn searched(libraries: Seq<LibraryModel>) -> Seq<LibraryModel>
    decreases libraries.len(),
{
    if libraries.len() == 0 {
        seq![]
    } else if is_searched(libraries.last()) {
        searched(libraries.drop_last()).push(libraries.last())
    } else {
        searched(libraries.drop_last())
    }
}

/// Shows with the library that they came from.
pub open spec fn from_library(shows: Seq<ShowModel>, title: Seq<char>) -> Seq<ShowModel> {
    shows.map_values(|show: ShowModel| ShowModel { library: title, ..show })
}

/// What the answers of the searched libraries say, one after the other.
pub open spec fn search_results(libraries: Seq<LibraryModel>, answers: Seq<Seq<TagModel>>) -> Seq<
    ShowModel,
>
    decreases libraries.len(),
{
    if libraries.len() == 0 || answers.len() == 0 {
        seq![]
    } else {
        search_results(libraries.drop_last(), answers.drop_last()) + from_library(
            shows_in(answers.last()),
            libraries.last().title,
        )
    }
}

/// The tags of several documents.
pub open spec fn answer_tags(answers: Seq<String>) -> Seq<Seq<TagModel>> {
    answers.map_values(|a: String| xml::document_tags(a@))
}

proof fn lemma_searched_count(libraries: Seq<LibraryModel>, i: int)
    requires
        0 <= i <= libraries.len(),
    ensures
        searched(libraries.take(i)).len() <= searched(libraries).len(),
        searched(libraries.take(i)) == searched(libraries).take(
            searched(libraries.take(i)).len() as int,
        ),
    decreases libraries.len(),
{
    if i == libraries.len() {
        assert(libraries.take(i) =~= libraries);
        assert(searched(libraries).take(searched(libraries).len() as int) =~= searched(libraries));
    } else {
        lemma_searched_count(libraries.drop_last(), i);
        assert(libraries.drop_last().take(i) =~= libraries.take(i));
        let n = searched(libraries.take(i)).len() as int;
        assert(searched(libraries).take(n) =~= searched(libraries.drop_last()).take(n));
    }
}

fn append_all(out: &mut Vec<Show>, shows: Vec<Show>, library: &str)
    ensures
        show_models(final(out)@) == show_models(old(out)@) + from_library(
            show_models(shows@),
            library@,
        ),
{
    let ghost added = from_library(show_models(shows@), library@);
    let mut i: usize = 0;
    assert(show_models(out@) =~= show_models(old(out)@) + added.take(0));
    while i < shows.len()
        invariant
            i <= shows@.len(),
            added == from_library(show_models(shows@), library@),
            show_models(out@) == show_models(old(out)@) + added.take(i as int),
        decreases shows@.len() - i,
    {
        let ghost before = out@;
        let show = Show {
            title: shows[i].title.clone(),
            rating_key: shows[i].rating_key,
            library: library.to_string(),
        };
        out.push(show);
        proof {
            assert(show_models(out@) =~= show_models(before).push(show@));
            assert(show@ == added[i as int]);
            assert(added.take(i + 1) =~= added.take(i as int).push(added[i as int]));
        }
        i += 1;
    }
    assert(added.take(added.len() as int) =~= added);
}

impl PlexClient {
    /// The address of the server.
    pub open spec fn address(server: Seq<char>, port: u16) -> Seq<char> {
        "http://"@ + server + ":"@ + text::decimal(port as nat)
    }

    /// The address of a path on the server, with the token as a further parameter.
    pub open spec fn path_url(self, path: Seq<char>) -> Seq<char> {
        self.base_url@ + path + if path.contains('?') {
            "&"@
        } else {
            "?"@
        } + "X-Plex-Token="@ + self.token@
    }

    /// A client of the server at an address.
    pub fn new(server: &str, port: u16, token: &str) -> (client: PlexClient)
        ensures
            client.base_url@ == Self::address(server@, port),
            client.token@ == token@,
    {
        let mut base_url: String = "http://".to_string();
        base_url.append(server);
        base_url.append(":");
        text::push_decimal(&mut base_url, port as u64);
        PlexClient { base_url, token: token.to_string() }
    }

    /// The address of a path on the server.
    pub fn get(&self, path: &str) -> (url: String)
        ensures
            url@ == self.path_url(path@),
    {
        let mut url: String = self.base_url.clone();
        url.append(path);
        if text::has_char(path, '?') {
            url.append("&");
        } else {
            url.append("?");
        }
        url.append("X-Plex-Token=");
        url.append(self.token.as_str());
        url
    }

    /// Where to ask for the libraries.
    pub fn libraries_url(&self) -> (url: String)
        ensures
            url@ == self.path_url("/library/sections"@),
    {
        self.get("/library/sections")
    }

    /// The libraries that an answer describes.
    pub fn libraries(&self, answer: &str) -> (libraries: Vec<Library>)
        requires
            xml::readable(answer@),
        ensures
            library_models(libraries@) == libraries_in(xml::document_tags(answer@)),
    {
        parse_libraries(&xml::read_tags(answer))
    }

    /// The path that searches a library for a title.
    pub open spec fn search_path(library: LibraryModel, query: Seq<char>) -> Seq<char> {
        "/library/sections/"@ + library.key + "/all?title="@ + query
    }

    /// Where to search the libraries that hold shows or films, in their order.
    pub fn search_urls(&self, libraries: &Vec<Library>, query: &str) -> (urls: Vec<String>)
        ensures
            text::texts(urls@) == searched(library_models(libraries@)).map_values(
                |library: LibraryModel| self.path_url(Self::search_path(library, query@)),
            ),
    {
        let mut urls: Vec<String> = Vec::new();
        let ghost models = library_models(libraries@);
        let ghost to_url = |library: LibraryModel|
            self.path_url(Self::search_path(library, query@));
        let mut i: usize = 0;
        assert(text::texts(urls@) =~= searched(models.take(0)).map_values(to_url));
        while i < libraries.len()
            invariant
                i <= libraries@.len(),
                models == library_models(libraries@),
                to_url == (|library: LibraryModel|
                    self.path_url(Self::search_path(library, query@))),
                text::texts(urls@) == searched(models.take(i as int)).map_values(to_url),
            decreases libraries@.len() - i,
        {
            let ghost before = urls@;
            proof {
                lemma_take_next(models, i as int);
            }
            if text::same_text(libraries[i].lib_type.as_str(), "show") || text::same_text(
                libraries[i].lib_type.as_str(),
                "movie",
            ) {
                let mut path: String = "/library/sections/".to_string();
                path.append(libraries[i].key.as_str());
                path.append("/all?title=");
                path.append(query);
                let url: String = self.get(path.as_str());
                urls.push(url);
                proof {
                    assert(text::texts(urls@) =~= text::texts(before).push(url@));
                    assert(searched(models.take(i + 1)).map_values(to_url) =~= searched(
                        models.take(i as int),
                    ).map_values(to_url).push(to_url(models[i as int])));
                }
            }
            i += 1;
        }
        assert(models.take(models.len() as int) =~= models);
        urls
    }

    /// The shows and films that the answers of the searched libraries describe, each with the title
    /// of its library. There is one answer for each library that is searched.
    pub fn search(&self, libraries: &Vec<Library>, answers: &Vec<String>) -> (shows: Vec<Show>)
        requires
            answers@.len() == searched(library_models(libraries@)).len(),
            forall|j: int| 0 <= j < answers@.len() ==> xml::readable(#[trigger] answers@[j]@),
        ensures
            show_models(shows@) == search_results(
                searched(library_models(libraries@)),
                answer_tags(answers@),
            ),
    {
        let mut shows: Vec<Show> = Vec::new();
        let ghost models = library_models(libraries@);
        let ghost tags = answer_tags(answers@);
        let mut i: usize = 0;
        let mut k: usize = 0;
        assert(show_models(shows@) =~= search_results(searched(models.take(0)), tags.take(0)));
        while i < libraries.len()
            invariant
                i <= libraries@.len(),
                models == library_models(libraries@),
                tags == answer_tags(answers@),
                answers@.len() == searched(models).len(),
                forall|j: int| 0 <= j < answers@.len() ==> xml::readable(#[trigger] answers@[j]@),
                k == searched(models.take(i as int)).len(),
                show_models(shows@) == search_results(
                    searched(models.take(i as int)),
                    tags.take(k as int),
                ),
            decreases libraries@.len() - i,
        {
            proof {
                lemma_take_next(models, i as int);
                lemma_searched_count(models, i + 1);
            }
            if text::same_text(libraries[i].lib_type.as_str(), "show") || text::same_text(
                libraries[i].lib_type.as_str(),
                "movie",
            ) {
                let found: Vec<Show> = parse_shows(&xml::read_tags(answers[k].as_str()));
                append_all(&mut shows, found, libraries[i].title.as_str());
                proof {
                    lemma_take_next(tags, k as int);
                    let list = searched(models.take(i + 1));
                    assert(list.drop_last() =~= searched(models.take(i as int)));
                    assert(list.last() == models[i as int]);
                }
                assert(k < answers.len());
                k += 1;
            }
            i += 1;
        }
        assert(models.take(models.len() as int) =~= models);
        assert(tags.take(tags.len() as int) =~= tags);
        shows
    }

    /// The path of an item.
    pub open spec fn item_path(key: u64) -> Seq<char> {
        "/library/metadata/"@ + text::decimal(key as nat)
    }

    /// Where to ask for the episodes of a show.
    pub fn episodes_url(&self, show_key: u64) -> (url: String)
        ensures
            url@ == self.path_url(Self::item_path(show_key) + "/allLeaves"@),
    {
        let mut path: String = "/library/metadata/".to_string();
        text::push_decimal(&mut path, show_key);
        path.append("/allLeaves");
        self.get(path.as_str())
    }

    /// The episodes that an answer describes.
    pub fn get_episodes(&self, answer: &str) -> (episodes: Vec<Episode>)
        requires
            xml::readable(answer@),
        ensures
            episode_models(episodes@) == episodes_in(xml::document_tags(answer@)),
    {
        parse_episodes(&xml::read_tags(answer))
    }

    /// Where to ask what to go on watching.
    pub fn on_deck_url(&self) -> (url: String)
        ensures
            url@ == self.path_url("/library/onDeck"@),
    {
        self.get("/library/onDeck")
    }

    /// What an answer says to go on watching.
    pub fn on_deck(&self, answer: &str) -> (items: Vec<OnDeckItem>)
        requires
            xml::readable(answer@),
        ensures
            on_deck_models(items@) == on_deck_items_in(xml::document_tags(answer@)),
    {
        parse_on_deck(&xml::read_tags(answer))
    }

    /// Where to ask what was watched lately.
    pub fn recently_watched_url(&self) -> (url: String)
        ensures
            url@ == self.path_url("/library/recentlyViewed"@),
    {
        self.get("/library/recentlyViewed")
    }

    /// What an answer says was watched lately.
    pub fn recently_watched(&self, answer: &str) -> (items: Vec<OnDeckItem>)
        requires
            xml::readable(answer@),
        ensures
            on_deck_models(items@) == on_deck_items_in(xml::document_tags(answer@)),
    {
        parse_on_deck(&xml::read_tags(answer))
    }

    /// The address that tells the server how far an item was played.
    pub open spec fn progress_url(
        self,
        rating_key: u64,
        time_ms: u64,
        state: Seq<char>,
        duration_ms: u64,
    ) -> Seq<char> {
        self.base_url@ + "/:/timeline?ratingKey="@ + text::decimal(rating_key as nat)
            + "&key=%2Flibrary%2Fmetadata%2F"@ + text::decimal(rating_key as nat) + "&state="@
            + state + "&time="@ + text::decimal(time_ms as nat) + "&duration="@ + text::decimal(
            duration_ms as nat,
        ) + "&X-Plex-Token="@ + self.token@
    }

    /// The address that tells the server how far an item was played.
    pub fn report_progress(
        &self,
        rating_key: u64,
        time_ms: u64,
        state: &str,
        duration_ms: u64,
    ) -> (url: String)
        ensures
            url@ == self.progress_url(rating_key, time_ms, state@, duration_ms),
    {
        let mut url: String = self.base_url.clone();
        url.append("/:/timeline?ratingKey=");
        text::push_decimal(&mut url, rating_key);
        url.append("&key=%2Flibrary%2Fmetadata%2F");
        text::push_decimal(&mut url, rating_key);
        url.append("&state=");
        url.append(state);
        url.append("&time=");
        text::push_decimal(&mut url, time_ms);
        url.append("&duration=");
        text::push_decimal(&mut url, duration_ms);
        url.append("&X-Plex-Token=");
        url.append(self.token.as_str());
        url
    }

    /// The address that tells the server that an item was watched to its end.
    pub fn scrobble(&self, rating_key: u64) -> (url: String)
        ensures
            url@ == self.path_url(
                "/:/scrobble?identifier=com.plexapp.plugins.library&key="@ + text::decimal(
                    rating_key as nat,
                ),
            ),
    {
        let mut path: String =
            "/:/scrobble?identifier=com.plexapp.plugins.library&key=".to_string();
        text::push_decimal(&mut path, rating_key);
        self.get(path.as_str())
    }

    /// Where to ask for an item.
    pub fn media_url(&self, rating_key: u64) -> (url: String)
        ensures
            url@ == self.path_url(Self::item_path(rating_key)),
    {
        let mut path: String = "/library/metadata/".to_string();
        text::push_decimal(&mut path, rating_key);
        self.get(path.as_str())
    }

    /// How to play the item that an answer describes, with sound and subtitles in the languages
    /// that are asked for.
    pub fn resolve_media(
        &self,
        answer: &str,
        audio_lang: Option<&str>,
        sub_lang: Option<&str>,
    ) -> (media: Result<MediaInfo, MediaError>)
        requires
            xml::readable(answer@),
        ensures
            (match media {
                Ok(info) => Ok(info@),
                Err(error) => Err(error),
            }) == media_in(
                xml::document_tags(answer@),
                self.base_url@,
                self.token@,
                text_view(audio_lang),
                text_view(sub_lang),
            ),
    {
        parse_media_info(
            &xml::read_tags(answer),
            self.base_url.as_str(),
            self.token.as_str(),
            audio_lang,
            sub_lang,
        )
    }
}

/// The libraries of a document are those of its first part and then those of its second, wherever
/// it is cut: none is left out, and none is listed twice.
pub proof fn law_libraries_are_all_listed(first: Seq<TagModel>, second: Seq<TagModel>)
    ensures
        libraries_in(first + second) == libraries_in(first) + libraries_in(second),
    decreases second.len(),
{
    if second.len() == 0 {
        assert(first + second =~= first);
        assert(libraries_in(first) + libraries_in(second) =~= libraries_in(first));
    } else {
        let all = first + second;
        assert(all.drop_last() =~= first + second.drop_last());
        assert(all.last() == second.last());
        law_libraries_are_all_listed(first, second.drop_last());
        assert(libraries_in(all) =~= libraries_in(first) + libraries_in(second));
    }
}

/// A tag describes a library just where it is a `Directory` with a key.
pub proof fn law_library_of_a_tag(tag: TagModel)
    ensures
        xml::spells(tag.name, "Directory"@) && tag.attribute("key"@).len() > 0 ==> libraries_in(
            seq![tag],
        ) == seq![
            LibraryModel {
                key: tag.attribute("key"@),
                title: tag.attribute("title"@),
                lib_type: tag.attribute("type"@),
            },
        ],
        !xml::spells(tag.name, "Directory"@) || tag.attribute("key"@).len() == 0 ==> libraries_in(
            seq![tag],
        ).len() == 0,
{
    assert(seq![tag].drop_last() =~= seq![]);
    assert(libraries_in(Seq::<TagModel>::empty()) =~= seq![]);
}

/// The shows and films of a document are those of its first part and then those of its second,
/// wherever it is cut: none is left out, and none is listed twice.
pub proof fn law_shows_are_all_listed(first: Seq<TagModel>, second: Seq<TagModel>)
    ensures
        shows_in(first + second) == shows_in(first) + shows_in(second),
    decreases second.len(),
{
    if second.len() == 0 {
        assert(first + second =~= first);
        assert(shows_in(first) + shows_in(second) =~= shows_in(first));
    } else {
        let all = first + second;
        assert(all.drop_last() =~= first + second.drop_last());
        assert(all.last() == second.last());
        law_shows_are_all_listed(first, second.drop_last());
        assert(shows_in(all) =~= shows_in(first) + shows_in(second));
    }
}

/// A tag describes a show or a film just where it is a `Directory` or a `Video` with a rating key
/// above zero.
pub proof fn law_show_of_a_tag(tag: TagModel)
    ensures
        ({
            let key = tag.number("ratingKey"@, 0xffff_ffff_ffff_ffff);
            let named = xml::spells(tag.name, "Directory"@) || xml::spells(tag.name, "Video"@);
            &&& named && key > 0 ==> shows_in(seq![tag]) == seq![
                ShowModel {
                    title: tag.attribute("title"@),
                    rating_key: key as u64,
                    library: seq![],
                },
            ]
            &&& !named || key <= 0 ==> shows_in(seq![tag]).len() == 0
        }),
{
    assert(seq![tag].drop_last() =~= seq![]);
    assert(shows_in(Seq::<TagModel>::empty()) =~= seq![]);
    xml::law_numbers_have_bounds(tag, "ratingKey"@, u64::MAX as int);
}

/// The episodes of a document are those of its first part and then those of its second, wherever it
/// is cut: none is left out, and none is listed twice.
pub proof fn law_episodes_are_all_listed(first: Seq<TagModel>, second: Seq<TagModel>)
    ensures
        episodes_in(first + second) == episodes_in(first) + episodes_in(second),
    decreases second.len(),
{
    if second.len() == 0 {
        assert(first + second =~= first);
        assert(episodes_in(first) + episodes_in(second) =~= episodes_in(first));
    } else {
        let all = first + second;
        assert(all.drop_last() =~= first + second.drop_last());
        assert(all.last() == second.last());
        law_episodes_are_all_listed(first, second.drop_last());
        assert(episodes_in(all) =~= episodes_in(first) + episodes_in(second));
    }
}

/// A tag describes an episode just where it is a `Video` with a rating key above zero.
pub proof fn law_episode_of_a_tag(tag: TagModel)
    ensures
        ({
            let key = tag.number("ratingKey"@, 0xffff_ffff_ffff_ffff);
            &&& xml::spells(tag.name, "Video"@) && key > 0 ==> episodes_in(seq![tag]) == seq![
                EpisodeModel {
                    title: tag.attribute("title"@),
                    rating_key: key as u64,
                    season: tag.number("parentIndex"@, 0xffff_ffff) as u32,
                    episode: tag.number("index"@, 0xffff_ffff) as u32,
                    view_count: tag.number("viewCount"@, 0xffff_ffff) as u32,
                    show_title: tag.attribute("grandparentTitle"@),
                },
            ]
            &&& !xml::spells(tag.name, "Video"@) || key <= 0 ==> episodes_in(seq![tag]).len() == 0
        }),
{
    assert(seq![tag].drop_last() =~= seq![]);
    assert(episodes_in(Seq::<TagModel>::empty()) =~= seq![]);
    xml::law_numbers_have_bounds(tag, "ratingKey"@, u64::MAX as int);
}

/// What a document says to go on watching is what its first part says and then what its second
/// says, wherever it is cut: nothing is left out, and nothing is listed twice.
pub proof fn law_on_deck_items_are_all_listed(first: Seq<TagModel>, second: Seq<TagModel>)
    ensures
        on_deck_items_in(first + second) == on_deck_items_in(first) + on_deck_items_in(second),
    decreases second.len(),
{
    if second.len() == 0 {
        assert(first + second =~= first);
        assert(on_deck_items_in(first) + on_deck_items_in(second) =~= on_deck_items_in(first));
    } else {
        let all = first + second;
        assert(all.drop_last() =~= first + second.drop_last());
        assert(all.last() == second.last());
        law_on_deck_items_are_all_listed(first, second.drop_last());
        assert(on_deck_items_in(all) =~= on_deck_items_in(first) + on_deck_items_in(second));
    }
}

/// A tag describes something to go on watching just where it is a `Video` with a rating key above
/// zero.
pub proof fn law_on_deck_item_of_a_tag(tag: TagModel)
    ensures
        ({
            let key = tag.number("ratingKey"@, 0xffff_ffff_ffff_ffff);
            &&& xml::spells(tag.name, "Video"@) && key > 0 ==> on_deck_items_in(seq![tag]) == seq![
                OnDeckModel {
                    title: tag.attribute("title"@),
                    show_title: tag.attribute("grandparentTitle"@),
                    rating_key: key as u64,
                    season: tag.number("parentIndex"@, 0xffff_ffff) as u32,
                    episode: tag.number("index"@, 0xffff_ffff) as u32,
                    view_offset: tag.number("viewOffset"@, 0xffff_ffff_ffff_ffff) as u64,
                    item_type: tag.attribute("type"@),
                },
            ]
            &&& !xml::spells(tag.name, "Video"@) || key <= 0 ==> on_deck_items_in(
                seq![tag],
            ).len() == 0
        }),
{
    assert(seq![tag].drop_last() =~= seq![]);
    assert(on_deck_items_in(Seq::<TagModel>::empty()) =~= seq![]);
    xml::law_numbers_have_bounds(tag, "ratingKey"@, u64::MAX as int);
}

/// Whether the stream at a place is in the language that is asked for by a word.
pub open spec fn in_language(streams: Seq<StreamModel>, i: int, language: Seq<char>) -> bool {
    language::is_in_language(text::lowered(streams[i].language), text::lowered(language))
}

/// Of several streams that are looked for it is the first in the list that is found.
proof fn lemma_least_fit(streams: Seq<StreamModel>, wanted: WantedModel, i: int)
    requires
        0 <= i < streams.len(),
        wanted.fits(streams[i]),
        forall|j: int| 0 <= j < i ==> !wanted.fits(#[trigger] streams[j]),
    ensures
        first_fit(streams, wanted) == Some(streams[i]),
    decreases streams.len(),
{
    if i > 0 {
        let rest = streams.skip(1);
        assert(!wanted.fits(streams[0]));
        assert forall|j: int| 0 <= j < i - 1 implies !wanted.fits(#[trigger] rest[j]) by {
            assert(rest[j] == streams[j + 1]);
        }
        assert(rest[i - 1] == streams[i]);
        lemma_least_fit(rest, wanted, i - 1);
    }
}

proof fn lemma_no_fit(streams: Seq<StreamModel>, wanted: WantedModel)
    requires
        forall|j: int| 0 <= j < streams.len() ==> !wanted.fits(#[trigger] streams[j]),
    ensures
        first_fit(streams, wanted) is None,
{
    lemma_first_fit(streams, wanted);
    if let Some(stream) = first_fit(streams, wanted) {
        let i = choose|i: int| 0 <= i < streams.len() && streams[i] == stream;
        assert(!wanted.fits(streams[i]));
    }
}

/// Of several sound streams in the language that is asked for the first in the list is played,
/// whichever the server has selected.
pub proof fn law_first_sound_in_language_is_played(
    streams: Seq<StreamModel>,
    language: Seq<char>,
    i: int,
)
    requires
        0 <= i < streams.len(),
        in_language(streams, i, language),
        forall|j: int| 0 <= j < i ==> !#[trigger] in_language(streams, j, language),
    ensures
        picked_audio(streams, Some(language)) == Some(streams[i]),
{
    let wanted = WantedModel::Language(text::lowered(language));
    assert forall|j: int| 0 <= j < i implies !wanted.fits(#[trigger] streams[j]) by {
        assert(!in_language(streams, j, language));
    }
    lemma_least_fit(streams, wanted, i);
}

/// Where there is no sound in the language that is asked for, or none is asked for, the first stream
/// that is selected is played, and where none is selected the first of all.
pub proof fn law_selected_sound_is_played(
    streams: Seq<StreamModel>,
    language: Option<Seq<char>>,
    i: int,
)
    requires
        0 <= i < streams.len(),
        language matches Some(asked) ==> forall|j: int|
            0 <= j < streams.len() ==> !#[trigger] in_language(streams, j, asked),
        forall|j: int| 0 <= j < i ==> !(#[trigger] streams[j]).selected,
    ensures
        streams[i].selected ==> picked_audio(streams, language) == Some(streams[i]),
        (forall|j: int| 0 <= j < streams.len() ==> !(#[trigger] streams[j]).selected)
            ==> picked_audio(streams, language) == Some(streams[0]),
{
    let ways = audio_ways(language);
    reveal_with_fuel(best_fit, 4);
    if let Some(asked) = language {
        let wanted = WantedModel::Language(text::lowered(asked));
        assert forall|j: int| 0 <= j < streams.len() implies !wanted.fits(
            #[trigger] streams[j],
        ) by {
            assert(!in_language(streams, j, asked));
        }
        lemma_no_fit(streams, wanted);
        assert(ways.skip(1) =~= audio_ways(None));
    }
    assert(audio_ways(None).skip(1) =~= seq![]);
    if streams[i].selected {
        lemma_least_fit(streams, WantedModel::Selected, i);
    }
    if forall|j: int| 0 <= j < streams.len() ==> !(#[trigger] streams[j]).selected {
        lemma_no_fit(streams, WantedModel::Selected);
    }
}

/// Of several subtitle streams in the language that is asked for the first in the list is shown,
/// whichever the server has selected.
pub proof fn law_first_subtitles_in_language_are_shown(
    streams: Seq<StreamModel>,
    language: Seq<char>,
    i: int,
)
    requires
        0 <= i < streams.len(),
        !subtitles_off(language),
        in_language(streams, i, language),
        forall|j: int| 0 <= j < i ==> !#[trigger] in_language(streams, j, language),
    ensures
        picked_subtitle(streams, Some(language)) == Some(streams[i]),
{
    let wanted = WantedModel::Language(text::lowered(language));
    assert forall|j: int| 0 <= j < i implies !wanted.fits(#[trigger] streams[j]) by {
        assert(!in_language(streams, j, language));
    }
    lemma_least_fit(streams, wanted, i);
}

/// Where there are no subtitles in the language that is asked for, or none is asked for, the first
/// that are selected are shown; where none are, the first whose language begins with `eng`; and where
/// there are none of those either, the first of all.
pub proof fn law_selected_subtitles_are_shown(
    streams: Seq<StreamModel>,
    language: Option<Seq<char>>,
    i: int,
)
    requires
        0 <= i < streams.len(),
        language matches Some(asked) ==> !subtitles_off(asked) && forall|j: int|
            0 <= j < streams.len() ==> !#[trigger] in_language(streams, j, asked),
    ensures
        streams[i].selected && (forall|j: int| 0 <= j < i ==> !(#[trigger] streams[j]).selected)
            ==> picked_subtitle(streams, language) == Some(streams[i]),
        (forall|j: int| 0 <= j < streams.len() ==> !(#[trigger] streams[j]).selected)
            && "eng"@.is_prefix_of(streams[i].language) && (forall|j: int|
            0 <= j < i ==> !"eng"@.is_prefix_of((#[trigger] streams[j]).language))
            ==> picked_subtitle(streams, language) == Some(streams[i]),
        (forall|j: int|
            0 <= j < streams.len() ==> !(#[trigger] streams[j]).selected && !"eng"@.is_prefix_of(
                streams[j].language,
            )) ==> picked_subtitle(streams, language) == Some(streams[0]),
{
    let ways = subtitle_ways(language);
    let english = WantedModel::Prefix("eng"@);
    reveal_with_fuel(best_fit, 5);
    if let Some(asked) = language {
        let wanted = WantedModel::Language(text::lowered(asked));
        assert forall|j: int| 0 <= j < streams.len() implies !wanted.fits(
            #[trigger] streams[j],
        ) by {
            assert(!in_language(streams, j, asked));
        }
        lemma_no_fit(streams, wanted);
        assert(ways.skip(1) =~= subtitle_ways(None));
    }
    assert(subtitle_ways(None).skip(1) =~= seq![english]);
    assert(seq![english].skip(1) =~= seq![]);
    if streams[i].selected && (forall|j: int| 0 <= j < i ==> !(#[trigger] streams[j]).selected) {
        lemma_least_fit(streams, WantedModel::Selected, i);
    }
    if forall|j: int| 0 <= j < streams.len() ==> !(#[trigger] streams[j]).selected {
        lemma_no_fit(streams, WantedModel::Selected);
        if "eng"@.is_prefix_of(streams[i].language) && (forall|j: int|
            0 <= j < i ==> !"eng"@.is_prefix_of((#[trigger] streams[j]).language)) {
            lemma_least_fit(streams, english, i);
        }
    }
    if forall|j: int|
        0 <= j < streams.len() ==> !(#[trigger] streams[j]).selected && !"eng"@.is_prefix_of(
            streams[j].language,
        ) {
        lemma_no_fit(streams, english);
    }
}

/// Subtitles are switched off by `off`, by `0` and by `none` in any case, and by nothing else.
pub proof fn law_subtitles_are_switched_off(setting: Seq<char>)
    ensures
        subtitles_off("off"@),
        subtitles_off("0"@),
        subtitles_off("none"@),
        subtitles_off(setting) ==> setting == "off"@ || setting == "0"@ || setting.len() == 4 && (
        setting[0] == 'n' || setting[0] == 'N') && (setting[1] == 'o' || setting[1] == 'O') && (
        setting[2] == 'n' || setting[2] == 'N') && (setting[3] == 'e' || setting[3] == 'E'),
        setting.len() == 4 && (setting[0] == 'n' || setting[0] == 'N') && (setting[1] == 'o'
            || setting[1] == 'O') && (setting[2] == 'n' || setting[2] == 'N') && (setting[3] == 'e'
            || setting[3] == 'E') ==> subtitles_off(setting),
{
    reveal_strlit("none");
    text::law_case_is_ignored(setting, "none"@);
    text::law_case_is_ignored("none"@, "none"@);
    if text::same_ignoring_case(setting, "none"@) {
        assert(setting[0] == "none"@[0] || setting[0] != "none"@[0]);
        assert(setting[1] == "none"@[1] || setting[1] != "none"@[1]);
        assert(setting[2] == "none"@[2] || setting[2] != "none"@[2]);
        assert(setting[3] == "none"@[3] || setting[3] != "none"@[3]);
    }
}

/// Whether a tag names a file to play.
pub open spec fn names_file(tag: TagModel) -> bool {
    xml::spells(tag.name, "Part"@) && tag.attribute("key"@).len() > 0
}

proof fn lemma_names_differ(name: Seq<u8>)
    ensures
        xml::spells(name, "Part"@) ==> !xml::spells(name, "Video"@),
        xml::spells(name, "Part"@) ==> !xml::spells(name, "Stream"@),
        xml::spells(name, "Stream"@) ==> !xml::spells(name, "Video"@),
{
    reveal_strlit("Part");
    reveal_strlit("Video");
    reveal_strlit("Stream");
}

/// The file is the first that a document names: the key of its first `Part` that has one.
pub proof fn law_first_part_is_played(tags: Seq<TagModel>, k: int)
    requires
        0 <= k < tags.len(),
        names_file(tags[k]),
        forall|j: int| 0 <= j < k ==> !names_file(#[trigger] tags[j]),
    ensures
        scanned(tags).part == Some(tags[k].attribute("key"@)),
    decreases tags.len(),
{
    let rest = tags.drop_last();
    lemma_names_differ(tags.last().name);
    if k == tags.len() - 1 {
        assert forall|j: int| 0 <= j < rest.len() implies !names_file(#[trigger] rest[j]) by {
            assert(rest[j] == tags[j]);
        }
        law_document_without_part(rest);
    } else {
        assert forall|j: int| 0 <= j < k implies !names_file(#[trigger] rest[j]) by {
            assert(rest[j] == tags[j]);
        }
        assert(rest[k] == tags[k]);
        law_first_part_is_played(rest, k);
    }
}

/// A document that names no file has nothing to play, and no streams either.
pub proof fn law_document_without_part(tags: Seq<TagModel>)
    requires
        forall|j: int| 0 <= j < tags.len() ==> !names_file(#[trigger] tags[j]),
    ensures
        scanned(tags).part is None,
        scanned(tags).audio.len() == 0,
        scanned(tags).subtitles.len() == 0,
    decreases tags.len(),
{
    if tags.len() > 0 {
        let rest = tags.drop_last();
        assert forall|j: int| 0 <= j < rest.len() implies !names_file(#[trigger] rest[j]) by {
            assert(rest[j] == tags[j]);
        }
        law_document_without_part(rest);
        assert(!names_file(tags[tags.len() - 1]));
        lemma_names_differ(tags.last().name);
    }
}

/// Title and times are those of the last `Video` of a document.
pub proof fn law_last_video_gives_title_and_times(tags: Seq<TagModel>, k: int)
    requires
        0 <= k < tags.len(),
        xml::spells(tags[k].name, "Video"@),
        forall|j: int| k < j < tags.len() ==> !xml::spells((#[trigger] tags[j]).name, "Video"@),
    ensures
        scanned(tags).title == tags[k].attribute("title"@),
        scanned(tags).duration_ms == tags[k].number("duration"@, 0xffff_ffff_ffff_ffff) as u64,
        scanned(tags).view_offset_ms == tags[k].number("viewOffset"@, 0xffff_ffff_ffff_ffff) as u64,
    decreases tags.len(),
{
    if k < tags.len() - 1 {
        let rest = tags.drop_last();
        assert(rest[k] == tags[k]);
        assert forall|j: int| k < j < rest.len() implies !xml::spells(
            (#[trigger] rest[j]).name,
            "Video"@,
        ) by {
            assert(rest[j] == tags[j]);
        }
        law_last_video_gives_title_and_times(rest, k);
        assert(!xml::spells(tags[tags.len() - 1].name, "Video"@));
    }
}

/// Behind the file every `Stream` of type 2 is a further audio stream and every one of type 3 a
/// further subtitle stream, with what the tag says of it; no other tag changes the streams.
pub proof fn law_stream_of_a_tag(tags: Seq<TagModel>, tag: TagModel)
    requires
        scanned(tags).part is Some,
    ensures
        ({
            let before = scanned(tags);
            let after = scanned(tags.push(tag));
            let kind = tag.attribute("streamType"@);
            let is_stream = xml::spells(tag.name, "Stream"@);
            let index = tag.number("index"@, 0xffff_ffff) as u32;
            let language = tag.attribute("languageCode"@);
            let selected = tag.attribute("selected"@) == "1"@;
            &&& after.part == before.part
            &&& is_stream && kind == "2"@ ==> {
                &&& after.subtitles == before.subtitles
                &&& after.audio.len() == before.audio.len() + 1
                &&& after.audio.drop_last() == before.audio
                &&& after.audio.last().index == index
                &&& after.audio.last().language == language
                &&& after.audio.last().selected == selected
            }
            &&& is_stream && kind == "3"@ ==> {
                &&& after.audio == before.audio
                &&& after.subtitles.len() == before.subtitles.len() + 1
                &&& after.subtitles.drop_last() == before.subtitles
                &&& after.subtitles.last().index == index
                &&& after.subtitles.last().language == language
                &&& after.subtitles.last().codec == tag.attribute("codec"@)
                &&& after.subtitles.last().selected == selected
            }
            &&& !is_stream || kind != "2"@ && kind != "3"@ ==> after.audio == before.audio
                && after.subtitles == before.subtitles
        }),
{
    reveal_strlit("2");
    reveal_strlit("3");
    assert("2"@[0] != "3"@[0]);
    lemma_names_differ(tag.name);
    assert(tags.push(tag).drop_last() =~= tags);
    let before = scanned(tags);
    let after = scanned(tags.push(tag));
    if xml::spells(tag.name, "Stream"@) {
        if tag.attribute("streamType"@) == "2"@ {
            assert(after.audio.drop_last() =~= before.audio);
        } else if tag.attribute("streamType"@) == "3"@ {
            assert(after.subtitles.drop_last() =~= before.subtitles);
        }
    }
}

/// An item is played where its document names a file: from the server, with the token, and with the
/// sound and the subtitles that are picked among the streams.
pub proof fn law_named_file_is_played(
    tags: Seq<TagModel>,
    base_url: Seq<char>,
    token: Seq<char>,
    audio_lang: Option<Seq<char>>,
    sub_lang: Option<Seq<char>>,
)
    ensures
        ({
            let scan = scanned(tags);
            let media = media_in(tags, base_url, token, audio_lang, sub_lang);
            let sound = picked_audio(scan.audio, audio_lang);
            let subtitle = picked_subtitle(scan.subtitles, sub_lang);
            &&& media is Ok <==> scan.part is Some
            &&& media matches Ok(m) ==> {
                &&& (base_url + scan.part->0).is_prefix_of(m.direct_play_url)
                &&& ("?X-Plex-Token="@ + token).is_suffix_of(m.direct_play_url)
                &&& m.direct_play_url.len() == base_url.len() + scan.part->0.len() + 14
                    + token.len()
                &&& m.title == scan.title
                &&& m.duration_ms == scan.duration_ms
                &&& m.view_offset_ms == scan.view_offset_ms
                &&& m.audio_stream_index is Some <==> sound is Some
                &&& sound is Some ==> m.audio_stream_index == Some(sound->0.index)
                &&& m.subtitle_stream_index is Some <==> subtitle is Some
                &&& m.subtitle_codec is Some <==> subtitle is Some
                &&& subtitle is Some ==> m.subtitle_stream_index == Some(subtitle->0.index)
                    && m.subtitle_codec == Some(subtitle->0.codec)
            }
        }),
{
    reveal_strlit("?X-Plex-Token=");
    if let Ok(m) = media_in(tags, base_url, token, audio_lang, sub_lang) {
        let url = m.direct_play_url;
        let first = base_url + scanned(tags).part->0;
        let last = "?X-Plex-Token="@ + token;
        assert(url.subrange(0, first.len() as int) =~= first);
        assert(url.subrange(url.len() - last.len(), url.len() as int) =~= last);
    }
}

/// The libraries that are searched are those of a list's first part and then those of its second,
/// and a library is searched just where it holds shows or films.
pub proof fn law_shows_and_films_are_searched(
    first: Seq<LibraryModel>,
    second: Seq<LibraryModel>,
    library: LibraryModel,
)
    ensures
        searched(first + second) == searched(first) + searched(second),
        library.lib_type == "show"@ || library.lib_type == "movie"@ ==> searched(seq![library])
            == seq![library],
        library.lib_type != "show"@ && library.lib_type != "movie"@ ==> searched(
            seq![library],
        ).len() == 0,
    decreases second.len(),
{
    assert(seq![library].drop_last() =~= seq![]);
    assert(searched(Seq::<LibraryModel>::empty()) =~= seq![]);
    if second.len() == 0 {
        assert(first + second =~= first);
        assert(searched(first) + searched(second) =~= searched(first));
    } else {
        let all = first + second;
        assert(all.drop_last() =~= first + second.drop_last());
        assert(all.last() == second.last());
        law_shows_and_films_are_searched(first, second.drop_last(), library);
        assert(searched(all) =~= searched(first) + searched(second));
    }
}

/// A search finds every show that an answer describes, with its title and its rating key and with
/// the title of the library that was asked: the results of the first answers come first, all of them,
/// then those of the next answer, as many as it describes and in its order.
pub proof fn law_search_finds_everything(
    libraries: Seq<LibraryModel>,
    answers: Seq<Seq<TagModel>>,
    k: int,
    i: int,
)
    requires
        libraries.len() == answers.len(),
        0 <= k < answers.len(),
        0 <= i < shows_in(answers[k]).len(),
    ensures
        ({
            let before = search_results(libraries.take(k), answers.take(k)).len();
            let found = search_results(libraries, answers);
            &&& before + i < found.len()
            &&& found[before + i].title == shows_in(answers[k])[i].title
            &&& found[before + i].rating_key == shows_in(answers[k])[i].rating_key
            &&& found[before + i].library == libraries[k].title
        }),
    decreases answers.len(),
{
    let n = answers.len() - 1;
    let first = search_results(libraries.drop_last(), answers.drop_last());
    let added = from_library(shows_in(answers.last()), libraries.last().title);
    if k == n {
        assert(libraries.take(k) =~= libraries.drop_last());
        assert(answers.take(k) =~= answers.drop_last());
        assert(search_results(libraries, answers)[first.len() + i] == added[i]);
    } else {
        assert(libraries.drop_last().take(k) =~= libraries.take(k));
        assert(answers.drop_last().take(k) =~= answers.take(k));
        assert(answers.drop_last()[k] == answers[k]);
        assert(libraries.drop_last()[k] == libraries[k]);
        law_search_finds_everything(libraries.drop_last(), answers.drop_last(), k, i);
    }
}

/// The shows that answers describe, taken together.
pub open spec fn shows_described(answers: Seq<Seq<TagModel>>) -> nat
    decreases answers.len(),
{
    if answers.len() == 0 {
        0
    } else {
        shows_in(answers[0]).len() + shows_described(answers.skip(1))
    }
}

/// A search finds as many shows as the answers describe, taken together: none is lost and none is
/// made up.
pub proof fn law_search_finds_nothing_else(
    libraries: Seq<LibraryModel>,
    answers: Seq<Seq<TagModel>>,
)
    requires
        libraries.len() == answers.len(),
    ensures
        search_results(libraries, answers).len() == shows_described(answers),
    decreases answers.len(),
{
    if answers.len() > 0 {
        law_search_finds_nothing_else(libraries.drop_last(), answers.drop_last());
        lemma_described_last(answers);
    }
}

proof fn lemma_described_last(answers: Seq<Seq<TagModel>>)
    requires
        answers.len() > 0,
    ensures
        shows_described(answers) == shows_described(answers.drop_last()) + shows_in(
            answers.last(),
        ).len(),
    decreases answers.len(),
{
    if answers.len() > 1 {
        lemma_described_last(answers.skip(1));
        assert(answers.skip(1).drop_last() =~= answers.drop_last().skip(1));
        assert(answers.skip(1).last() == answers.last());
        assert(answers.drop_last()[0] == answers[0]);
    } else {
        assert(answers.skip(1) =~= seq![]);
        assert(answers.drop_last() =~= seq![]);
    }
}

/// The address of a path is on the server, goes through the path, and ends with the token, which is
/// the first parameter where the path has none and a further one where it has some.
pub proof fn law_address_carries_the_token(client: PlexClient, path: Seq<char>)
    ensures
        ({
            let url = client.path_url(path);
            &&& (client.base_url@ + path).is_prefix_of(url)
            &&& ("X-Plex-Token="@ + client.token@).is_suffix_of(url)
            &&& url.len() == client.base_url@.len() + path.len() + 14 + client.token@.len()
            &&& url[(client.base_url@.len() + path.len()) as int] == if path.contains('?') {
                '&'
            } else {
                '?'
            }
        }),
{
    reveal_strlit("X-Plex-Token=");
    reveal_strlit("&");
    reveal_strlit("?");
    let url = client.path_url(path);
    let first = client.base_url@ + path;
    let last = "X-Plex-Token="@ + client.token@;
    assert(url.subrange(0, first.len() as int) =~= first);
    assert(url.subrange(url.len() - last.len(), url.len() as int) =~= last);
}

/// A library is searched at its own address, for what is asked for.
pub proof fn law_search_asks_for_the_title(library: LibraryModel, query: Seq<char>)
    ensures
        ({
            let path = PlexClient::search_path(library, query);
            &&& ("/library/sections/"@ + library.key + "/all?title="@).is_prefix_of(path)
            &&& query.is_suffix_of(path)
            &&& path.len() == library.key.len() + query.len() + 29
            &&& path.contains('?')
        }),
{
    reveal_strlit("/library/sections/");
    reveal_strlit("/all?title=");
    let path = PlexClient::search_path(library, query);
    let first = "/library/sections/"@ + library.key + "/all?title="@;
    assert(path.subrange(0, first.len() as int) =~= first);
    assert(path.subrange(path.len() - query.len(), path.len() as int) =~= query);
    assert(path[(18 + library.key.len() + 4) as int] == '?');
}

/// The report of a position goes to the server with the token, and says of which item it is, what
/// is done with it, where it is, and how long it is.
pub proof fn law_report_says_everything(
    client: PlexClient,
    rating_key: u64,
    time_ms: u64,
    state: Seq<char>,
    duration_ms: u64,
)
    ensures
        ({
            let url = client.progress_url(rating_key, time_ms, state, duration_ms);
            let key = text::decimal(rating_key as nat);
            &&& (client.base_url@ + "/:/timeline?"@).is_prefix_of(url)
            &&& ("&X-Plex-Token="@ + client.token@).is_suffix_of(url)
            &&& text::occurs_in("?ratingKey="@ + key + "&key=%2Flibrary%2Fmetadata%2F"@ + key + "&"@, url)
            &&& text::occurs_in("&state="@ + state + "&"@, url)
            &&& text::occurs_in("&time="@ + text::decimal(time_ms as nat) + "&"@, url)
            &&& text::occurs_in("&duration="@ + text::decimal(duration_ms as nat) + "&"@, url)
        }),
{
    reveal_strlit("/:/timeline?ratingKey=");
    reveal_strlit("/:/timeline?");
    reveal_strlit("?ratingKey=");
    reveal_strlit("&key=%2Flibrary%2Fmetadata%2F");
    reveal_strlit("&state=");
    reveal_strlit("&time=");
    reveal_strlit("&duration=");
    reveal_strlit("&X-Plex-Token=");
    reveal_strlit("&");
    let url = client.progress_url(rating_key, time_ms, state, duration_ms);
    let base = client.base_url@;
    let key = text::decimal(rating_key as nat);
    let time = text::decimal(time_ms as nat);
    let duration = text::decimal(duration_ms as nat);
    let first = base + "/:/timeline?"@;
    assert(url.subrange(0, first.len() as int) =~= first);
    let last = "&X-Plex-Token="@ + client.token@;
    assert(url.subrange(url.len() - last.len(), url.len() as int) =~= last);
    let a = (base + "/:/timeline?ratingKey="@).len() as int;
    let part = "?ratingKey="@ + key + "&key=%2Flibrary%2Fmetadata%2F"@ + key + "&"@;
    assert(url.subrange(a - 11, a - 11 + part.len()) =~= part);
    let b = a + key.len() + 29 + key.len();
    let part = "&state="@ + state + "&"@;
    assert(url.subrange(b, b + part.len()) =~= part);
    let c = b + 7 + state.len();
    let part = "&time="@ + time + "&"@;
    assert(url.subrange(c, c + part.len()) =~= part);
    let d = c + 6 + time.len();
    let part = "&duration="@ + duration + "&"@;
    assert(url.subrange(d, d + part.len()) =~= part);
}

/// A model says all that the thing itself says.
pub proof fn law_models_say_everything(
    library: Library,
    show: Show,
    episode: Episode,
    item: OnDeckItem,
    stream: Stream,
)
    ensures
        library@.key == library.key@,
        library@.title == library.title@,
        library@.lib_type == library.lib_type@,
        show@.title == show.title@,
        show@.rating_key == show.rating_key,
        show@.library == show.library@,
        episode@.title == episode.title@,
        episode@.rating_key == episode.rating_key,
        episode@.season == episode.season,
        episode@.episode == episode.episode,
        episode@.view_count == episode.view_count,
        episode@.show_title == episode.show_title@,
        item@.title == item.title@,
        item@.show_title == item.show_title@,
        item@.rating_key == item.rating_key,
        item@.season == item.season,
        item@.episode == item.episode,
        item@.view_offset == item.view_offset,
        item@.item_type == item.item_type@,
        stream@.index == stream.index,
        stream@.language == stream.language@,
        stream@.codec == stream.codec@,
        stream@.selected == stream.selected,
{
}

/// The model of how to play something says all that there is to say.
pub proof fn law_media_model_says_everything(media: MediaInfo)
    ensures
        media@.direct_play_url == media.direct_play_url@,
        media@.title == media.title@,
        media@.duration_ms == media.duration_ms,
        media@.view_offset_ms == media.view_offset_ms,
        media@.audio_stream_index == media.audio_stream_index,
        media@.subtitle_stream_index == media.subtitle_stream_index,
        media@.subtitle_codec is Some <==> media.subtitle_codec is Some,
        media.subtitle_codec matches Some(codec) ==> media@.subtitle_codec == Some(codec@),
{
}

/// A list of models has a model for each thing, in its place.
pub proof fn law_models_keep_their_places(
    libraries: Seq<Library>,
    shows: Seq<Show>,
    episodes: Seq<Episode>,
    items: Seq<OnDeckItem>,
    answers: Seq<String>,
    i: int,
)
    ensures
        library_models(libraries).len() == libraries.len(),
        0 <= i < libraries.len() ==> library_models(libraries)[i] == libraries[i]@,
        show_models(shows).len() == shows.len(),
        0 <= i < shows.len() ==> show_models(shows)[i] == shows[i]@,
        episode_models(episodes).len() == episodes.len(),
        0 <= i < episodes.len() ==> episode_models(episodes)[i] == episodes[i]@,
        on_deck_models(items).len() == items.len(),
        0 <= i < items.len() ==> on_deck_models(items)[i] == items[i]@,
        answer_tags(answers).len() == answers.len(),
        0 <= i < answers.len() ==> answer_tags(answers)[i] == xml::document_tags(answers[i]@),
{
}

/// The server is reached by its name and its port, and an item under its own key.
pub proof fn law_addresses_name_server_and_item(server: Seq<char>, port: u16, key: u64)
    ensures
        ("http://"@ + server + ":"@).is_prefix_of(PlexClient::address(server, port)),
        text::decimal(port as nat).is_suffix_of(PlexClient::address(server, port)),
        PlexClient::address(server, port).len() == 8 + server.len() + text::decimal(
            port as nat,
        ).len(),
        "/library/metadata/"@.is_prefix_of(PlexClient::item_path(key)),
        PlexClient::item_path(key).skip(18) == text::decimal(key as nat),
{
    reveal_strlit("http://");
    reveal_strlit(":");
    reveal_strlit("/library/metadata/");
    let url = PlexClient::address(server, port);
    let first = "http://"@ + server + ":"@;
    let last = text::decimal(port as nat);
    assert(url.subrange(0, first.len() as int) =~= first);
    assert(url.subrange(url.len() - last.len(), url.len() as int) =~= last);
    let path = PlexClient::item_path(key);
    assert(path.subrange(0, 18) =~= "/library/metadata/"@);
    assert(path.skip(18) =~= text::decimal(key as nat));
}

} // verus!
