use groovy_cli::language::{languages, speaks};
use groovy_cli::plex::{
    parse_episodes, parse_libraries, parse_media_info, parse_on_deck, parse_shows, MediaError,
    PlexClient,
};
use groovy_cli::xml::{decode_entities, is_readable, read_tags, Tag};

fn client() -> PlexClient {
    PlexClient::new("nas", 32400, "SECRET")
}

fn tag(name: &str, attributes: &[(&str, &str)]) -> Tag {
    Tag {
        name: name.as_bytes().to_vec(),
        attributes: attributes
            .iter()
            .map(|(k, v)| (k.as_bytes().to_vec(), v.as_bytes().to_vec()))
            .collect(),
    }
}

#[test]
fn entities_are_decoded() {
    assert_eq!(decode_entities("a &amp; b &lt;c&gt; &quot;d&quot; &apos;e&apos;"), "a & b <c> \"d\" 'e'");
    assert_eq!(decode_entities("&#39;&#x41;&#x2014;&#8212;&#+65;"), "'A——A");
    assert_eq!(decode_entities("plain"), "plain");
    assert_eq!(decode_entities(""), "");
}

#[test]
fn references_to_no_character_are_dropped() {
    assert_eq!(decode_entities("[&#xD800;&#x110000;&#;&#x;&#12a;&#4294967296;&#-1;]"), "[]");
}

#[test]
fn unknown_entities_stay() {
    assert_eq!(decode_entities("&nbsp;&;x"), "&nbsp;&;x");
    assert_eq!(decode_entities("AT&T"), "AT&T;");
    assert_eq!(decode_entities("&"), "&;");
    assert_eq!(decode_entities("a &b &amp; c"), "a &b &amp; c");
}

#[test]
fn escaped_text_comes_back() {
    let text = "Tom & Jerry's <\"best\"> — 100%";
    let mut escaped = String::new();
    for c in text.chars() {
        match c {
            '&' => escaped.push_str("&amp;"),
            '<' => escaped.push_str("&lt;"),
            '>' => escaped.push_str("&gt;"),
            '"' => escaped.push_str("&quot;"),
            '\'' => escaped.push_str("&apos;"),
            _ => escaped.push(c),
        }
    }
    assert_eq!(decode_entities(&escaped), text);
}

#[test]
fn tags_are_read_in_order() {
    let tags = read_tags("<?xml version=\"1.0\"?><A x='1' y=\"2\"><!-- c --><B/>text</A><C z='&amp;'/>");
    let names: Vec<&[u8]> = tags.iter().map(|t| t.name.as_slice()).collect();
    assert_eq!(names, [b"A".as_slice(), b"B".as_slice(), b"C".as_slice()]);
    assert_eq!(
        tags[0].attributes,
        [(b"x".to_vec(), b"1".to_vec()), (b"y".to_vec(), b"2".to_vec())]
    );
    assert!(tags[1].attributes.is_empty());
    assert_eq!(tags[2].attributes, [(b"z".to_vec(), b"&amp;".to_vec())]);
    assert_eq!(tags[2].attr_str("z"), "&");
}

#[test]
fn broken_documents_end() {
    assert!(read_tags("").is_empty());
    assert!(read_tags("no markup at all").is_empty());
    assert_eq!(read_tags("<A></B><C/>").len(), 2);
    assert_eq!(read_tags("<A><B").len(), 1);
    assert_eq!(read_tags("<A x=1 y='2'/>").len(), 1);
}

#[test]
fn declarations_are_passed_over() {
    let text = "<!DOCTYPE A [<!ELEMENT A (B)><!ELEMENT B (#PCDATA)>]><A><B/></A>";
    assert!(is_readable(text));
    assert_eq!(read_tags(text).len(), 2);
    assert!(is_readable(""));
    assert!(read_tags(&"<!D".repeat(1000)).is_empty());
}

#[test]
fn broken_attributes_are_passed_over() {
    let tags = read_tags("<A x y='2' y='3' z=\"4\"/>");
    assert_eq!(tags[0].attr_str("y"), "2");
    assert_eq!(tags[0].attr_str("z"), "4");
    assert_eq!(tags[0].attr_str("x"), "");
}

#[test]
fn attribute_text_and_numbers() {
    let t = Tag {
        name: b"T".to_vec(),
        attributes: vec![
            (b"n".to_vec(), b"+42".to_vec()),
            (b"n".to_vec(), b"7".to_vec()),
            (b"big".to_vec(), b"4294967296".to_vec()),
            (b"bad".to_vec(), b"12x".to_vec()),
            (b"raw".to_vec(), vec![0x61, 0xff, 0x62]),
            (b"utf".to_vec(), "ß→".as_bytes().to_vec()),
        ],
    };
    assert!(t.is_named("T") && !t.is_named("t") && !t.is_named("TT"));
    assert_eq!(t.attr_u64("n"), 42);
    assert_eq!(t.attr_u32("n"), 42);
    assert_eq!(t.attr_u64("big"), 4294967296);
    assert_eq!(t.attr_u32("big"), 0);
    assert_eq!(t.attr_u64("bad"), 0);
    assert_eq!(t.attr_u64("missing"), 0);
    assert_eq!(t.attr_str("raw"), "a\u{fffd}b");
    assert_eq!(t.attr_str("utf"), "ß→");
}

#[test]
fn client_address_and_paths() {
    let c = client();
    assert_eq!(c.base_url, "http://nas:32400");
    assert_eq!(c.get("/a"), "http://nas:32400/a?X-Plex-Token=SECRET");
    assert_eq!(c.get("/a?b=c"), "http://nas:32400/a?b=c&X-Plex-Token=SECRET");
    assert_eq!(c.libraries_url(), "http://nas:32400/library/sections?X-Plex-Token=SECRET");
    assert_eq!(c.episodes_url(12), "http://nas:32400/library/metadata/12/allLeaves?X-Plex-Token=SECRET");
    assert_eq!(c.on_deck_url(), "http://nas:32400/library/onDeck?X-Plex-Token=SECRET");
    assert_eq!(
        c.recently_watched_url(),
        "http://nas:32400/library/recentlyViewed?X-Plex-Token=SECRET"
    );
    assert_eq!(c.media_url(0), "http://nas:32400/library/metadata/0?X-Plex-Token=SECRET");
    assert_eq!(
        c.scrobble(7),
        "http://nas:32400/:/scrobble?identifier=com.plexapp.plugins.library&key=7&X-Plex-Token=SECRET"
    );
    assert_eq!(
        c.report_progress(u64::MAX, 10, "playing", 1000),
        "http://nas:32400/:/timeline?ratingKey=18446744073709551615\
         &key=%2Flibrary%2Fmetadata%2F18446744073709551615&state=playing&time=10&duration=1000\
         &X-Plex-Token=SECRET"
    );
}

const SECTIONS: &str = r#"<MediaContainer size="4">
<Directory key="1" title="Films &amp; more" type="movie"/>
<Directory key="2" title="Music" type="artist"/>
<Directory key="" title="Nothing" type="show"/>
<Directory key="3" title="Anime" type="show"><Location id="3"/></Directory>
</MediaContainer>"#;

#[test]
fn libraries_of_an_answer() {
    let libs = client().libraries(SECTIONS);
    let found: Vec<(&str, &str, &str)> = libs
        .iter()
        .map(|l| (l.key.as_str(), l.title.as_str(), l.lib_type.as_str()))
        .collect();
    assert_eq!(
        found,
        [("1", "Films & more", "movie"), ("2", "Music", "artist"), ("3", "Anime", "show")]
    );
}

#[test]
fn search_goes_over_shows_and_films() {
    let c = client();
    let libs = c.libraries(SECTIONS);
    assert_eq!(
        c.search_urls(&libs, "Gun dam"),
        [
            "http://nas:32400/library/sections/1/all?title=Gun dam&X-Plex-Token=SECRET",
            "http://nas:32400/library/sections/3/all?title=Gun dam&X-Plex-Token=SECRET",
        ]
    );
    let answers = vec![
        r#"<M><Video ratingKey="5" title="Char"/><Video ratingKey="0" title="no"/></M>"#.to_string(),
        r#"<M><Directory ratingKey="6" title="Gundam"/><Track ratingKey="7"/></M>"#.to_string(),
    ];
    let shows = c.search(&libs, &answers);
    let found: Vec<(&str, u64, &str)> =
        shows.iter().map(|s| (s.title.as_str(), s.rating_key, s.library.as_str())).collect();
    assert_eq!(found, [("Char", 5, "Films & more"), ("Gundam", 6, "Anime")]);
}

#[test]
fn shows_come_without_a_library() {
    let shows = parse_shows(&vec![tag("Video", &[("ratingKey", "3"), ("title", "T")])]);
    assert_eq!((shows.len(), shows[0].library.as_str()), (1, ""));
}

#[test]
fn episodes_of_an_answer() {
    let xml = r#"<MediaContainer>
<Video ratingKey="10" parentIndex="1" index="2" viewCount="3" title="A" grandparentTitle="Show"/>
<Directory ratingKey="11" title="no"/>
<Video title="no key"/>
<Video ratingKey="12" title="B"/></MediaContainer>"#;
    let eps = client().get_episodes(xml);
    assert_eq!(eps.len(), 2);
    assert_eq!((eps[0].season, eps[0].episode, eps[0].view_count), (1, 2, 3));
    assert_eq!((eps[0].title.as_str(), eps[0].show_title.as_str()), ("A", "Show"));
    assert_eq!((eps[1].rating_key, eps[1].season, eps[1].view_count), (12, 0, 0));
}

#[test]
fn on_deck_of_an_answer() {
    let xml = r#"<M><Video ratingKey="1" type="episode" title="E" grandparentTitle="S"
 parentIndex="2" index="3" viewOffset="600000"/><Video ratingKey="2" type="movie" title="F"/></M>"#;
    let c = client();
    for items in [c.on_deck(xml), c.recently_watched(xml)] {
        assert_eq!(items.len(), 2);
        assert_eq!((items[0].season, items[0].episode, items[0].view_offset), (2, 3, 600000));
        assert_eq!((items[0].item_type.as_str(), items[0].show_title.as_str()), ("episode", "S"));
        assert_eq!((items[1].item_type.as_str(), items[1].title.as_str()), ("movie", "F"));
    }
}

fn streams() -> Vec<Tag> {
    vec![
        tag("Stream", &[("streamType", "2"), ("index", "90"), ("languageCode", "jpn")]),
        tag("Video", &[("title", "Ep"), ("duration", "1000"), ("viewOffset", "50")]),
        tag("Part", &[("key", "")]),
        tag("Part", &[("key", "/library/parts/1/file.mkv")]),
        tag("Part", &[("key", "/library/parts/2/file.mkv")]),
        tag("Stream", &[("streamType", "1"), ("index", "0")]),
        tag("Stream", &[("streamType", "2"), ("index", "1"), ("languageCode", "eng")]),
        tag(
            "Stream",
            &[("streamType", "2"), ("index", "2"), ("languageCode", "JPN"), ("selected", "1")],
        ),
        tag(
            "Stream",
            &[("streamType", "3"), ("index", "3"), ("languageCode", "ger"), ("codec", "srt")],
        ),
        tag(
            "Stream",
            &[("streamType", "3"), ("index", "4"), ("languageCode", "eng"), ("codec", "ass")],
        ),
        tag(
            "Stream",
            &[
                ("streamType", "3"),
                ("index", "5"),
                ("languageCode", "fre"),
                ("codec", "pgs"),
                ("selected", "1"),
            ],
        ),
    ]
}

fn pick(tags: &Vec<Tag>, audio: Option<&str>, sub: Option<&str>) -> (Option<u32>, Option<u32>) {
    let info = parse_media_info(tags, "http://h", "T", audio, sub).unwrap();
    (info.audio_stream_index, info.subtitle_stream_index)
}

#[test]
fn media_of_tags() {
    let info = parse_media_info(&streams(), "http://h", "T", None, None).unwrap();
    assert_eq!(info.direct_play_url, "http://h/library/parts/1/file.mkv?X-Plex-Token=T");
    assert_eq!((info.title.as_str(), info.duration_ms, info.view_offset_ms), ("Ep", 1000, 50));
    assert_eq!(info.audio_stream_index, Some(2));
    assert_eq!(info.subtitle_stream_index, Some(5));
    assert_eq!(info.subtitle_codec.as_deref(), Some("pgs"));
}

#[test]
fn audio_by_language() {
    let tags = streams();
    assert_eq!(pick(&tags, Some("english"), None).0, Some(1));
    assert_eq!(pick(&tags, Some("EN"), None).0, Some(1));
    assert_eq!(pick(&tags, Some("Jpn"), None).0, Some(2));
    assert_eq!(pick(&tags, Some("klingon"), None).0, Some(2));
}

#[test]
fn audio_falls_back_to_the_first() {
    let mut tags = streams();
    tags.remove(7);
    assert_eq!(pick(&tags, Some("klingon"), None).0, Some(1));
    assert_eq!(pick(&tags, None, None).0, Some(1));
    tags.remove(6);
    assert_eq!(pick(&tags, None, None).0, None);
}

#[test]
fn subtitles_by_language() {
    let tags = streams();
    assert_eq!(pick(&tags, None, Some("german")).1, Some(3));
    assert_eq!(pick(&tags, None, Some("klingon")).1, Some(5));
    assert_eq!(pick(&tags, None, Some("ger")).1, Some(3));
    assert_eq!(pick(&tags, None, Some("ENGLISH")).1, Some(4));
    for off in ["none", "NONE", "NoNe", "off", "0"] {
        assert_eq!(pick(&tags, None, Some(off)).1, None, "{}", off);
    }
    assert_eq!(pick(&tags, None, Some("OFF")).1, Some(5));
}

#[test]
fn subtitles_fall_back_to_english_and_the_first() {
    let mut tags = streams();
    tags.remove(10);
    assert_eq!(pick(&tags, None, None).1, Some(4));
    assert_eq!(pick(&tags, None, Some("klingon")).1, Some(4));
    tags.remove(9);
    assert_eq!(pick(&tags, None, None).1, Some(3));
    assert_eq!(pick(&tags, None, Some("klingon")).1, Some(3));
    tags.remove(8);
    assert_eq!(pick(&tags, None, None).1, None);
    assert_eq!(pick(&tags, None, Some("ger")).1, None);
}

#[test]
fn stream_without_a_language_is_not_asked_for() {
    let tags = vec![
        tag("Part", &[("key", "/p")]),
        tag("Stream", &[("streamType", "2"), ("index", "8")]),
        tag("Stream", &[("streamType", "2"), ("index", "9"), ("languageCode", "eng")]),
    ];
    assert_eq!(pick(&tags, Some("eng"), None).0, Some(9));
    assert_eq!(pick(&tags, Some("jpn"), None).0, Some(8));
}

fn picked(xml: &str, audio: Option<&str>, sub: Option<&str>) -> (Option<u32>, Option<u32>) {
    let info = PlexClient::new("h", 1, "T").resolve_media(xml, audio, sub).unwrap();
    (info.audio_stream_index, info.subtitle_stream_index)
}

#[test]
fn japanese_is_asked_for_by_name() {
    let xml = "<Video><Part key='/p'>\
        <Stream streamType='2' index='1' languageCode='eng' selected='1'/>\
        <Stream streamType='2' index='2' languageCode='jpn'/>\
        <Stream streamType='3' index='3' languageCode='jpn'/>\
        <Stream streamType='3' index='4' languageCode='ENG'/></Part></Video>";
    assert_eq!(picked(xml, Some("japanese"), Some("english")), (Some(2), Some(4)));
    assert_eq!(picked(xml, Some("Japanese"), Some("jpn")), (Some(2), Some(3)));
    assert_eq!(picked(xml, Some("ja"), Some("Ja")), (Some(2), Some(3)));
    assert_eq!(picked(xml, Some("english"), Some("JAPANESE")), (Some(1), Some(3)));
    assert_eq!(picked(xml, Some("french"), None), (Some(1), Some(3)));
}

#[test]
fn subtitles_that_are_missing_fall_back_to_english() {
    let xml = "<Video><Part key='/p'>\
        <Stream streamType='3' index='3' languageCode='jpn' codec='ass'/>\
        <Stream streamType='3' index='4' languageCode='eng' codec='srt'/></Part></Video>";
    let info = PlexClient::new("h", 1, "T").resolve_media(xml, None, Some("fre")).unwrap();
    assert_eq!(info.subtitle_stream_index, Some(4));
    assert_eq!(info.subtitle_codec.as_deref(), Some("srt"));
}

#[test]
fn sound_without_a_language_is_passed_over() {
    let xml = "<Video><Part key='/p'><Stream streamType='2' index='1'/>\
        <Stream streamType='2' index='2' languageCode='eng'/></Part></Video>";
    assert_eq!(picked(xml, Some("eng"), None).0, Some(2));
    assert_eq!(picked(xml, None, None).0, Some(1));
}

#[test]
fn words_of_a_language() {
    for (i, a) in languages().iter().enumerate() {
        for (j, b) in languages().iter().enumerate() {
            for x in [a.name, a.short, a.code, a.other] {
                for y in [b.name, b.short, b.code, b.other] {
                    assert_eq!(speaks(x, y), i == j, "{} {}", x, y);
                }
            }
        }
    }
}

#[test]
fn unknown_words_are_compared_by_their_beginnings() {
    assert!(speaks("tlh", "tlh"));
    assert!(speaks("tlh-latn", "tlh"));
    assert!(speaks("kli", "klingon"));
    assert!(speaks("eng-us", "eng"));
    assert!(!speaks("tlh", "klingon"));
    assert!(!speaks("", "eng"));
    assert!(!speaks("", ""));
}

#[test]
fn media_without_a_part_is_refused() {
    let tags = vec![tag("Video", &[("title", "x")]), tag("Part", &[("id", "1")])];
    let error = parse_media_info(&tags, "http://h", "T", None, None).err().unwrap();
    assert_eq!(error, MediaError::NoPart);
    assert_eq!(error.message(), "No playable media part found");
}

#[test]
fn media_of_an_answer() {
    let xml = r#"<MediaContainer><Video title="A &amp; B" duration="5000"><Media><Part key="/p?x=1">
<Stream streamType="2" index="1" languageCode="eng"/>
<Stream streamType="3" index="2" languageCode="deu" codec="ass"/></Part></Media></Video></MediaContainer>"#;
    let info = client().resolve_media(xml, None, Some("Deutsch")).unwrap();
    assert_eq!(info.title, "A & B");
    assert_eq!(info.direct_play_url, "http://nas:32400/p?x=1?X-Plex-Token=SECRET");
    assert_eq!((info.audio_stream_index, info.subtitle_stream_index), (Some(1), Some(2)));
    assert_eq!(info.subtitle_codec.as_deref(), Some("ass"));
    assert!(client().resolve_media("<MediaContainer/>", None, None).is_err());
}

#[test]
fn lists_of_no_tags_are_empty() {
    let none: Vec<Tag> = vec![];
    assert!(parse_libraries(&none).is_empty());
    assert!(parse_episodes(&none).is_empty());
    assert!(parse_on_deck(&none).is_empty());
    assert!(parse_shows(&none).is_empty());
}
