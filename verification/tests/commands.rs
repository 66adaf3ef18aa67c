use groovy_cli::auth::{auth_url, poll_url, save_token, urlencoded, PinPolling, PollStep};
use groovy_cli::cli::{
    episode_line, library_line, on_deck_line, pick_episode, pick_show, playing_line, show_line,
    PickError,
};
use groovy_cli::plex::{Episode, Library, OnDeckItem, Show};

fn show(title: &str) -> Show {
    Show { title: title.into(), rating_key: 5, library: "Anime".into() }
}

fn episode(season: u32, episode: u32, view_count: u32) -> Episode {
    Episode {
        title: format!("T{}", episode),
        rating_key: 100 + episode as u64,
        season,
        episode,
        view_count,
        show_title: "S".into(),
    }
}

#[test]
fn spaces_are_encoded() {
    assert_eq!(urlencoded("Groovy CLI"), "Groovy%20CLI");
    assert_eq!(urlencoded("  a+b "), "%20%20a+b%20");
    assert_eq!(urlencoded(""), "");
}

#[test]
fn sign_in_addresses() {
    assert_eq!(
        auth_url("abc"),
        "https://app.plex.tv/auth#?clientID=groovy-cli-plex-client&code=abc\
         &context%5Bdevice%5D%5Bproduct%5D=Groovy%20CLI"
    );
    assert_eq!(poll_url(123), "https://plex.tv/api/v2/pins/123");
}

#[test]
fn pin_is_asked_about_for_two_minutes() {
    let mut polling = PinPolling::start();
    for i in 0..119 {
        let token = if i % 2 == 0 { None } else { Some(String::new()) };
        match polling.answered(token) {
            PollStep::Pending { dot } => assert_eq!(dot, i % 5 == 4),
            _ => panic!("at {}", i),
        }
    }
    assert!(matches!(polling.answered(None), PollStep::TimedOut { dot: true }));
}

#[test]
fn confirmed_pin_gives_the_token() {
    let mut polling = PinPolling::start();
    assert!(matches!(polling.answered(None), PollStep::Pending { dot: false }));
    match polling.answered(Some("tok".into())) {
        PollStep::Authorized(token) => assert_eq!(token, "tok"),
        _ => panic!(),
    }
}

#[test]
fn token_is_saved_beside_other_settings() {
    assert_eq!(save_token(None, "t").unwrap(), "token = \"t\"\n");
    assert_eq!(
        save_token(Some("port = 1\ntoken = \"old\"\nmister = \"m\"\n"), "new").unwrap(),
        "mister = \"m\"\nport = 1\ntoken = \"new\"\n"
    );
    assert_eq!(save_token(Some("this is = = no TOML"), "t").unwrap(), "token = \"t\"\n");
}

#[test]
fn saved_token_can_be_read() {
    let file = "scale = 0.9\n\n[custom_modeline]\nh_active = 320\n";
    let saved = save_token(Some(file), "a \"quoted\" \\ token\n").unwrap();
    let table = saved.parse::<toml::Table>().unwrap();
    assert_eq!(table["token"].as_str(), Some("a \"quoted\" \\ token\n"));
    assert_eq!(table["scale"].as_float(), Some(0.9));
    assert_eq!(table["custom_modeline"]["h_active"].as_integer(), Some(320));
    assert_eq!(save_token(Some(&saved), "b").unwrap(), save_token(Some(file), "b").unwrap());
}

#[test]
fn first_show_is_meant() {
    let shows = vec![show("A"), show("B")];
    assert_eq!(pick_show(&shows, "x").unwrap().title, "A");
    let error = pick_show(&vec![], "x").err().unwrap();
    assert_eq!(error.message(), "No show found for 'x'");
}

#[test]
fn episode_by_number() {
    let eps = vec![episode(1, 1, 1), episode(1, 2, 0), episode(2, 2, 0)];
    assert_eq!(pick_episode(&eps, Some(2), Some(2)).unwrap().season, 2);
    let error = pick_episode(&eps, Some(3), Some(4)).err().unwrap();
    assert!(matches!(error, PickError::NoSuchEpisode { season: 3, episode: 4 }));
    assert_eq!(error.message(), "S3E4 not found");
}

#[test]
fn next_unwatched_episode() {
    let eps = vec![episode(1, 1, 1), episode(1, 2, 0), episode(1, 3, 0)];
    assert_eq!(pick_episode(&eps, None, None).unwrap().episode, 2);
    assert_eq!(pick_episode(&eps, Some(1), None).unwrap().episode, 2);
    assert_eq!(pick_episode(&eps, None, Some(3)).unwrap().episode, 2);
    let seen = vec![episode(1, 1, 1), episode(1, 2, 4)];
    assert_eq!(pick_episode(&seen, None, None).unwrap().episode, 1);
    let error = pick_episode(&vec![], None, None).err().unwrap();
    assert!(matches!(error, PickError::NoEpisodes));
    assert_eq!(error.message(), "No episodes");
}

#[test]
fn lines() {
    let library = Library { key: "1".into(), title: "Films".into(), lib_type: "movie".into() };
    assert_eq!(library_line(&library), "1: Films (type=movie)");
    assert_eq!(show_line(&show("Gundam")), "Gundam (key=5, library=Anime)");
    assert_eq!(episode_line(&episode(1, 2, 0)), "  [ ] S1E2 - T2 (key=102)");
    assert_eq!(episode_line(&episode(10, 2, 3)), "  [✓] S10E2 - T2 (key=102)");
    assert_eq!(playing_line(&show("Gundam"), &episode(1, 4, 0)), "Playing: Gundam S1E4 - T4");
}

#[test]
fn on_deck_lines() {
    let mut item = OnDeckItem {
        title: "Pilot".into(),
        show_title: "Show".into(),
        rating_key: 7,
        season: 1,
        episode: 2,
        view_offset: 659_999,
        item_type: "episode".into(),
    };
    assert_eq!(on_deck_line(3, &item), "  3. Show — S1E2: Pilot (10m in) (key=7)");
    item.item_type = "movie".into();
    item.view_offset = 0;
    assert_eq!(on_deck_line(1, &item), "  1. Pilot (key=7)");
}
