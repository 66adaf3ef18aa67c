//! The command line: which episode is meant, and the lines that are shown.

use crate::plex;
use crate::plex::{Episode, EpisodeModel, Library, LibraryModel, OnDeckItem, OnDeckModel, Show, ShowModel};
use crate::text;
use vstd::prelude::*;
use vstd::string::*;

verus! {

/// Why there is nothing to play.
#[derive(Debug)]
pub enum PickError {
    /// The search found nothing under this name.
    NoShow(String),
    /// The show has no such episode.
    NoSuchEpisode { season: u32, episode: u32 },
    /// The show has no episodes.
    NoEpisodes,
}

impl PickError {
    /// The error in words.
    pub open spec fn words(self) -> Seq<char> {
        match self {
            PickError::NoShow(name) => "No show found for '"@ + name@ + "'"@,
            PickError::NoSuchEpisode { season, episode } => "S"@ + text::decimal(season as nat)
                + "E"@ + text::decimal(episode as nat) + " not found"@,
            PickError::NoEpisodes => "No episodes"@,
        }
    }

    /// The error in words.
    pub fn message(&self) -> (words: String)
        ensures
            words@ == self.words(),
    {
        match self {
            PickError::NoShow(name) => {
                let mut words: String = "No show found for '".to_string();
                words.append(name.as_str());
                words.append("'");
                words
            },
            PickError::NoSuchEpisode { season, episode } => {
                let mut words: String = "S".to_string();
                text::push_decimal(&mut words, *season as u64);
                words.append("E");
                text::push_decimal(&mut words, *episode as u64);
                words.append(" not found");
                words
            },
            PickError::NoEpisodes => "No episodes".to_string(),
        }
    }
}

/// The show that is meant by a name: the first that the search found.
pub fn pick_show<'a>(shows: &'a Vec<Show>, name: &str) -> (picked: Result<&'a Show, PickError>)
    ensures
        match picked {
            Ok(show) => shows@.len() > 0 && *show == shows@[0],
            Err(error) => {
                &&& shows@.len() == 0
                &&& error matches PickError::NoShow(n) && n@ == name@
            },
        },
{
    if shows.len() > 0 {
        Ok(&shows[0])
    } else {
        Err(PickError::NoShow(name.to_string()))
    }
}

/// The place of the first episode with a number, from a place on.
pub open spec fn numbered_from(episodes: Seq<EpisodeModel>, i: int, season: u32, episode: u32) -> Option<
    int,
>
    decreases episodes.len() - i,
{
    if i < 0 || i >= episodes.len() {
        None
    } else if episodes[i].season == season && episodes[i].episode == episode {
        Some(i)
    } else {
        numbered_from(episodes, i + 1, season, episode)
    }
}

/// The place of the first episode that was not watched, from a place on.
pub open spec fn unwatched_from(episodes: Seq<EpisodeModel>, i: int) -> Option<int>
    decreases episodes.len() - i,
{
    if i < 0 || i >= episodes.len() {
        None
    } else if episodes[i].view_count == 0 {
        Some(i)
    } else {
        unwatched_from(episodes, i + 1)
    }
}

/// The place of the episode to play: the one with the given season and number, where both are given;
/// else the first that was not watched, or else the first.
pub open spec fn picked_episode(
    episodes: Seq<EpisodeModel>,
    season: Option<u32>,
    episode: Option<u32>,
) -> Option<int> {
    match (season, episode) {
        (Some(s), Some(e)) => numbered_from(episodes, 0, s, e),
        _ => if unwatched_from(episodes, 0) is Some {
            unwatched_from(episodes, 0)
        } else if episodes.len() > 0 {
            Some(0)
        } else {
            None
        },
    }
}

fn find_numbered(episodes: &Vec<Episode>, season: u32, episode: u32) -> (found: Option<usize>)
    ensures
        match found {
            Some(i) => i < episodes@.len() && numbered_from(
                plex::episode_models(episodes@),
                0,
                season,
                episode,
            ) == Some(i as int),
            None => numbered_from(plex::episode_models(episodes@), 0, season, episode) is None,
        },
{
    let ghost models = plex::episode_models(episodes@);
    let mut i: usize = 0;
    while i < episodes.len()
        invariant
            i <= episodes@.len(),
            models == plex::episode_models(episodes@),
            numbered_from(models, 0, season, episode) == numbered_from(
                models,
                i as int,
                season,
                episode,
            ),
        decreases episodes@.len() - i,
    {
        assert(models[i as int] == episodes@[i as int]@);
        if episodes[i].season == season && episodes[i].episode == episode {
            return Some(i);
        }
        i += 1;
    }
    None
}

fn find_unwatched(episodes: &Vec<Episode>) -> (found: Option<usize>)
    ensures
        match found {
            Some(i) => i < episodes@.len() && unwatched_from(plex::episode_models(episodes@), 0)
                == Some(i as int),
            None => unwatched_from(plex::episode_models(episodes@), 0) is None,
        },
{
    let ghost models = plex::episode_models(episodes@);
    let mut i: usize = 0;
    while i < episodes.len()
        invariant
            i <= episodes@.len(),
            models == plex::episode_models(episodes@),
            unwatched_from(models, 0) == unwatched_from(models, i as int),
        decreases episodes@.len() - i,
    {
        assert(models[i as int] == episodes@[i as int]@);
        if episodes[i].view_count == 0 {
            return Some(i);
        }
        i += 1;
    }
    None
}

/// The episode to play.
pub fn pick_episode<'a>(
    episodes: &'a Vec<Episode>,
    season: Option<u32>,
    episode: Option<u32>,
) -> (picked: Result<&'a Episode, PickError>)
    ensures
        ({
            let place = picked_episode(plex::episode_models(episodes@), season, episode);
            match picked {
                Ok(found) => place matches Some(i) && 0 <= i < episodes@.len() && *found
                    == episodes@[i],
                Err(error) => place is None && match error {
                    PickError::NoSuchEpisode { season: s, episode: e } => season == Some(s)
                        && episode == Some(e),
                    PickError::NoEpisodes => season is None || episode is None,
                    PickError::NoShow(_) => false,
                },
            }
        }),
        season is Some && episode is Some ==> match picked {
            Ok(found) => found.season == season->0 && found.episode == episode->0,
            Err(_) => forall|i: int|
                0 <= i < episodes@.len() ==> (#[trigger] episodes@[i]).season != season->0
                    || episodes@[i].episode != episode->0,
        },
        season is None || episode is None ==> match picked {
            Ok(found) => found.view_count == 0 || *found == episodes@[0] && forall|i: int|
                0 <= i < episodes@.len() ==> (#[trigger] episodes@[i]).view_count > 0,
            Err(_) => episodes@.len() == 0,
        },
{
    proof {
        lemma_picked(episodes@, season, episode);
    }
    if let Some(s) = season {
        if let Some(e) = episode {
            return match find_numbered(episodes, s, e) {
                Some(i) => Ok(&episodes[i]),
                None => Err(PickError::NoSuchEpisode { season: s, episode: e }),
            };
        }
    }
    if let Some(i) = find_unwatched(episodes) {
        return Ok(&episodes[i]);
    }
    if episodes.len() > 0 {
        Ok(&episodes[0])
    } else {
        Err(PickError::NoEpisodes)
    }
}

/// Without a season and a number an episode is picked wherever there is one, and it is one that was
/// not watched wherever there is such a one.
pub proof fn law_next_unwatched_is_picked(
    episodes: Seq<EpisodeModel>,
    season: Option<u32>,
    episode: Option<u32>,
)
    requires
        season is None || episode is None,
    ensures
        picked_episode(episodes, season, episode) is Some <==> episodes.len() > 0,
        picked_episode(episodes, season, episode) matches Some(i) ==> {
            &&& 0 <= i < episodes.len()
            &&& episodes[i].view_count > 0 ==> forall|j: int|
                0 <= j < episodes.len() ==> (#[trigger] episodes[j]).view_count > 0
        },
{
    lemma_unwatched(episodes, 0);
}

proof fn lemma_unwatched(episodes: Seq<EpisodeModel>, from: int)
    requires
        0 <= from <= episodes.len(),
    ensures
        match unwatched_from(episodes, from) {
            Some(i) => {
                &&& from <= i < episodes.len()
                &&& episodes[i].view_count == 0
                &&& forall|j: int| from <= j < i ==> (#[trigger] episodes[j]).view_count > 0
            },
            None => forall|j: int|
                from <= j < episodes.len() ==> (#[trigger] episodes[j]).view_count > 0,
        },
    decreases episodes.len() - from,
{
    if from < episodes.len() && episodes[from].view_count != 0 {
        lemma_unwatched(episodes, from + 1);
    }
}

/// The line of a library.
pub open spec fn library_words(library: LibraryModel) -> Seq<char> {
    library.key + ": "@ + library.title + " (type="@ + library.lib_type + ")"@
}

/// The line of a library.
pub fn library_line(library: &Library) -> (line: String)
    ensures
        line@ == library_words(library@),
{
    let mut line: String = library.key.clone();
    line.append(": ");
    line.append(library.title.as_str());
    line.append(" (type=");
    line.append(library.lib_type.as_str());
    line.append(")");
    line
}

/// The line of a show.
pub open spec fn show_words(show: ShowModel) -> Seq<char> {
    show.title + " (key="@ + text::decimal(show.rating_key as nat) + ", library="@ + show.library
        + ")"@
}

/// The line of a show.
pub fn show_line(show: &Show) -> (line: String)
    ensures
        line@ == show_words(show@),
{
    let mut line: String = show.title.clone();
    line.append(" (key=");
    text::push_decimal(&mut line, show.rating_key);
    line.append(", library=");
    line.append(show.library.as_str());
    line.append(")");
    line
}

/// The season and the number of an episode.
pub open spec fn number_words(season: u32, episode: u32) -> Seq<char> {
    "S"@ + text::decimal(season as nat) + "E"@ + text::decimal(episode as nat)
}

fn push_number(out: &mut String, season: u32, episode: u32)
    ensures
        final(out)@ == old(out)@ + number_words(season, episode),
{
    out.append("S");
    text::push_decimal(out, season as u64);
    out.append("E");
    text::push_decimal(out, episode as u64);
    assert(out@ =~= old(out)@ + number_words(season, episode));
}

/// The line of an episode, with a mark where it was watched.
pub open spec fn episode_words(episode: EpisodeModel) -> Seq<char> {
    "  ["@ + if episode.view_count > 0 {
        "✓"@
    } else {
        " "@
    } + "] "@ + number_words(episode.season, episode.episode) + " - "@ + episode.title + " (key="@
        + text::decimal(episode.rating_key as nat) + ")"@
}

/// The line of an episode, with a mark where it was watched.
pub fn episode_line(episode: &Episode) -> (line: String)
    ensures
        line@ == episode_words(episode@),
{
    let mut line: String = "  [".to_string();
    if episode.view_count > 0 {
        line.append("✓");
    } else {
        line.append(" ");
    }
    line.append("] ");
    push_number(&mut line, episode.season, episode.episode);
    line.append(" - ");
    line.append(episode.title.as_str());
    line.append(" (key=");
    text::push_decimal(&mut line, episode.rating_key);
    line.append(")");
    line
}

/// The line of something to go on watching, which is the `number`-th of a list. An episode is shown
/// with its show; where it was begun the line says at which minute.
pub open spec fn on_deck_words(number: nat, item: OnDeckModel) -> Seq<char> {
    let start = "  "@ + text::decimal(number) + ". "@;
    let name = if item.item_type == "episode"@ {
        item.show_title + " — "@ + number_words(item.season, item.episode) + ": "@ + item.title
    } else {
        item.title
    };
    let offset = if item.view_offset > 0 {
        " ("@ + text::decimal((item.view_offset / 60000) as nat) + "m in)"@
    } else {
        seq![]
    };
    start + name + offset + " (key="@ + text::decimal(item.rating_key as nat) + ")"@
}

/// The line of something to go on watching.
pub fn on_deck_line(number: u64, item: &OnDeckItem) -> (line: String)
    ensures
        line@ == on_deck_words(number as nat, item@),
{
    let ghost start = "  "@ + text::decimal(number as nat) + ". "@;
    let mut line: String = "  ".to_string();
    text::push_decimal(&mut line, number);
    line.append(". ");
    let ghost name = if item@.item_type == "episode"@ {
        item@.show_title + " — "@ + number_words(item@.season, item@.episode) + ": "@ + item@.title
    } else {
        item@.title
    };
    if text::same_text(item.item_type.as_str(), "episode") {
        line.append(item.show_title.as_str());
        line.append(" — ");
        push_number(&mut line, item.season, item.episode);
        line.append(": ");
    }
    line.append(item.title.as_str());
    assert(line@ =~= start + name);
    let ghost offset = if item@.view_offset > 0 {
        " ("@ + text::decimal((item@.view_offset / 60000) as nat) + "m in)"@
    } else {
        seq![]
    };
    if item.view_offset > 0 {
        line.append(" (");
        text::push_decimal(&mut line, item.view_offset / 60000);
        line.append("m in)");
    }
    assert(line@ =~= start + name + offset);
    line.append(" (key=");
    text::push_decimal(&mut line, item.rating_key);
    line.append(")");
    line
}

/// The line that says what is played.
pub fn playing_line(show: &Show, episode: &Episode) -> (line: String)
    ensures
        line@ == "Playing: "@ + show.title@ + " "@ + number_words(episode.season, episode.episode)
            + " - "@ + episode.title@,
{
    let mut line: String = "Playing: ".to_string();
    line.append(show.title.as_str());
    line.append(" ");
    push_number(&mut line, episode.season, episode.episode);
    line.append(" - ");
    line.append(episode.title.as_str());
    line
}

/// Where a season and a number are given, the episode that is picked has both, it is the first such
/// one, and one is picked wherever the show has one.
pub proof fn law_asked_episode_is_picked(episodes: Seq<EpisodeModel>, season: u32, episode: u32)
    ensures
        match picked_episode(episodes, Some(season), Some(episode)) {
            Some(i) => {
                &&& 0 <= i < episodes.len()
                &&& episodes[i].season == season
                &&& episodes[i].episode == episode
                &&& forall|j: int|
                    0 <= j < i ==> (#[trigger] episodes[j]).season != season || episodes[j].episode
                        != episode
            },
            None => forall|j: int|
                0 <= j < episodes.len() ==> (#[trigger] episodes[j]).season != season
                    || episodes[j].episode != episode,
        },
{
    lemma_numbered(episodes, 0, season, episode);
}

proof fn lemma_numbered(episodes: Seq<EpisodeModel>, from: int, season: u32, episode: u32)
    requires
        0 <= from <= episodes.len(),
    ensures
        match numbered_from(episodes, from, season, episode) {
            Some(i) => {
                &&& from <= i < episodes.len()
                &&& episodes[i].season == season
                &&& episodes[i].episode == episode
                &&& forall|j: int|
                    from <= j < i ==> (#[trigger] episodes[j]).season != season
                        || episodes[j].episode != episode
            },
            None => forall|j: int|
                from <= j < episodes.len() ==> (#[trigger] episodes[j]).season != season
                    || episodes[j].episode != episode,
        },
    decreases episodes.len() - from,
{
    if from < episodes.len() && !(episodes[from].season == season && episodes[from].episode
        == episode) {
        lemma_numbered(episodes, from + 1, season, episode);
    }
}

/// Without both a season and a number, what is picked is the first episode that was not watched;
/// where all were watched it is the first episode. A season or a number alone changes nothing.
pub proof fn law_first_unwatched_is_picked(
    episodes: Seq<EpisodeModel>,
    season: Option<u32>,
    episode: Option<u32>,
)
    requires
        season is None || episode is None,
        episodes.len() > 0,
    ensures
        picked_episode(episodes, season, episode) matches Some(i) && {
            &&& 0 <= i < episodes.len()
            &&& forall|j: int| 0 <= j < i ==> (#[trigger] episodes[j]).view_count > 0
            &&& episodes[i].view_count == 0 || i == 0 && forall|j: int|
                0 <= j < episodes.len() ==> (#[trigger] episodes[j]).view_count > 0
        },
        picked_episode(episodes, season, episode) == picked_episode(episodes, None, None),
{
    lemma_unwatched(episodes, 0);
}

/// The line of a library names its key first, and ends with what it holds.
pub proof fn law_library_line_names_everything(library: LibraryModel)
    ensures
        ({
            let line = library_words(library);
            &&& (library.key + ": "@).is_prefix_of(line)
            &&& (" (type="@ + library.lib_type + ")"@).is_suffix_of(line)
            &&& text::occurs_in(library.title, line)
            &&& line.len() == library.key.len() + library.title.len() + library.lib_type.len() + 10
        }),
{
    let line = library_words(library);
    reveal_strlit(": ");
    reveal_strlit(" (type=");
    reveal_strlit(")");
    let first = library.key + ": "@;
    let last = " (type="@ + library.lib_type + ")"@;
    let n = first.len() as int;
    assert(line.subrange(0, n) =~= first);
    assert(line.subrange(line.len() - last.len(), line.len() as int) =~= last);
    assert(line.subrange(n, n + library.title.len()) =~= library.title);
}

/// The line of a show begins with its title and ends with its key and its library.
pub proof fn law_show_line_names_everything(show: ShowModel)
    ensures
        show.title.is_prefix_of(show_words(show)),
        (" (key="@ + text::decimal(show.rating_key as nat) + ", library="@ + show.library
            + ")"@).is_suffix_of(show_words(show)),
        show_words(show).len() == show.title.len() + text::decimal(show.rating_key as nat).len()
            + show.library.len() + 17,
{
    let line = show_words(show);
    reveal_strlit(" (key=");
    reveal_strlit(", library=");
    reveal_strlit(")");
    let last = " (key="@ + text::decimal(show.rating_key as nat) + ", library="@ + show.library
        + ")"@;
    assert(line.subrange(0, show.title.len() as int) =~= show.title);
    assert(line.subrange(line.len() - last.len(), line.len() as int) =~= last);
}

/// The line of an episode begins with a mark, which is a tick just where the episode was watched, and
/// then names season and number, title and key.
pub proof fn law_episode_line_is_marked(episode: EpisodeModel)
    ensures
        ({
            let line = episode_words(episode);
            let number = "S"@ + text::decimal(episode.season as nat) + "E"@ + text::decimal(
                episode.episode as nat,
            );
            let rest = "] "@ + number + " - "@ + episode.title + " (key="@ + text::decimal(
                episode.rating_key as nat,
            ) + ")"@;
            &&& line.len() == 4 + rest.len()
            &&& line[3] == if episode.view_count > 0 {
                '✓'
            } else {
                ' '
            }
            &&& line.take(3) == "  ["@
            &&& line.skip(4) == rest
        }),
{
    let line = episode_words(episode);
    reveal_strlit("  [");
    reveal_strlit("✓");
    reveal_strlit(" ");
    let number = "S"@ + text::decimal(episode.season as nat) + "E"@ + text::decimal(
        episode.episode as nat,
    );
    let rest = "] "@ + number + " - "@ + episode.title + " (key="@ + text::decimal(
        episode.rating_key as nat,
    ) + ")"@;
    assert(line.take(3) =~= "  ["@);
    assert(line.skip(4) =~= rest);
}

/// The line of something to go on watching begins with its number in the list and ends with its
/// key. In between stands its title, behind the show and the number where it is an episode; and
/// where it was begun, the whole minutes that were watched.
pub proof fn law_on_deck_line_names_everything(number: nat, item: OnDeckModel)
    ensures
        ({
            let line = on_deck_words(number, item);
            let shown = if item.item_type == "episode"@ {
                item.show_title + " — S"@ + text::decimal(item.season as nat) + "E"@
                    + text::decimal(item.episode as nat) + ": "@ + item.title
            } else {
                item.title
            };
            let key = " (key="@ + text::decimal(item.rating_key as nat) + ")"@;
            &&& ("  "@ + text::decimal(number) + ". "@ + shown).is_prefix_of(line)
            &&& key.is_suffix_of(line)
            &&& item.view_offset == 0 ==> line.len() == text::decimal(number).len() + 4
                + shown.len() + key.len()
            &&& item.view_offset > 0 ==> text::occurs_in(
                " ("@ + text::decimal(item.view_offset as nat / 60_000) + "m in)"@ + key,
                line,
            )
        }),
{
    let line = on_deck_words(number, item);
    reveal_strlit(" — S");
    reveal_strlit(" — ");
    reveal_strlit("S");
    reveal_strlit("  ");
    reveal_strlit(". ");
    let start = "  "@ + text::decimal(number) + ". "@;
    let shown = if item.item_type == "episode"@ {
        item.show_title + " — S"@ + text::decimal(item.season as nat) + "E"@ + text::decimal(
            item.episode as nat,
        ) + ": "@ + item.title
    } else {
        item.title
    };
    let name = if item.item_type == "episode"@ {
        item.show_title + " — "@ + number_words(item.season, item.episode) + ": "@ + item.title
    } else {
        item.title
    };
    let key = " (key="@ + text::decimal(item.rating_key as nat) + ")"@;
    assert(shown =~= name);
    let offset = if item.view_offset > 0 {
        " ("@ + text::decimal((item.view_offset / 60000) as nat) + "m in)"@
    } else {
        seq![]
    };
    assert(line =~= start + name + offset + key);
    let first = start + shown;
    assert(line.subrange(0, first.len() as int) =~= first);
    assert(line.subrange(line.len() - key.len(), line.len() as int) =~= key);
    if item.view_offset > 0 {
        let last = " ("@ + text::decimal(item.view_offset as nat / 60_000) + "m in)"@ + key;
        assert(last == offset + key);
        let i = line.len() - last.len();
        assert(line.subrange(i, i + last.len()) =~= last);
    }
}

/// What is said of the models of episodes holds of the episodes.
proof fn lemma_picked(episodes: Seq<Episode>, season: Option<u32>, episode: Option<u32>)
    ensures
        ({
            let place = picked_episode(plex::episode_models(episodes), season, episode);
            &&& season is Some && episode is Some ==> match place {
                Some(i) => {
                    &&& 0 <= i < episodes.len()
                    &&& episodes[i].season == season->0
                    &&& episodes[i].episode == episode->0
                },
                None => forall|i: int|
                    0 <= i < episodes.len() ==> (#[trigger] episodes[i]).season != season->0
                        || episodes[i].episode != episode->0,
            }
            &&& season is None || episode is None ==> match place {
                Some(i) => {
                    &&& 0 <= i < episodes.len()
                    &&& episodes[i].view_count == 0 || i == 0 && forall|j: int|
                        0 <= j < episodes.len() ==> (#[trigger] episodes[j]).view_count > 0
                },
                None => episodes.len() == 0,
            }
        }),
{
    let models = plex::episode_models(episodes);
    assert forall|i: int| 0 <= i < episodes.len() implies models[i] == (
    #[trigger] episodes[i])@ by {}
    if season is Some && episode is Some {
        law_asked_episode_is_picked(models, season->0, episode->0);
        if picked_episode(models, season, episode) is None {
            assert forall|i: int| 0 <= i < episodes.len() implies (#[trigger] episodes[i]).season
                != season->0 || episodes[i].episode != episode->0 by {
                assert(models[i] == episodes[i]@);
            }
        }
    } else if episodes.len() > 0 {
        law_first_unwatched_is_picked(models, season, episode);
        let i = picked_episode(models, season, episode)->0;
        if models[i].view_count > 0 {
            assert forall|j: int| 0 <= j < episodes.len() implies (
            #[trigger] episodes[j]).view_count > 0 by {
                assert(models[j] == episodes[j]@);
            }
        }
    } else {
        lemma_unwatched(models, 0);
    }
}

/// An error names what was asked for: the name that was searched, or the season and the number.
pub proof fn law_errors_name_what_was_asked(error: PickError)
    ensures
        error matches PickError::NoShow(name) ==> text::occurs_in("'"@ + name@ + "'"@, error.words()),
        error matches PickError::NoSuchEpisode { season, episode } ==> ("S"@ + text::decimal(
            season as nat,
        ) + "E"@ + text::decimal(episode as nat)).is_prefix_of(error.words()),
{
    match error {
        PickError::NoShow(name) => {
            reveal_strlit("No show found for '");
            reveal_strlit("'");
            let part = "'"@ + name@ + "'"@;
            let words = error.words();
            let at = 18int;
            assert(words.subrange(at, at + part.len()) =~= part);
        },
        PickError::NoSuchEpisode { season, episode } => {
            let first = "S"@ + text::decimal(season as nat) + "E"@ + text::decimal(episode as nat);
            assert(error.words().subrange(0, first.len() as int) =~= first);
        },
        PickError::NoEpisodes => {},
    }
}

} // verus!
