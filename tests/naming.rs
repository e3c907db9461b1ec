use steam_autoshutdown::naming::{
    game_name, make_app_page, resolve_name, APP_NAME_PREFIX, APP_NAME_SUFFIX, UNKNOWN_GAME,
};
use steam_autoshutdown::stream::ByteStream;
use steam_autoshutdown::watch::{contains_name, listing_line, watch_step, WatchAction, WatchState};

#[test]
fn app_page_address() {
    assert_eq!(make_app_page("221100"), "https://store.steampowered.com/app/221100");
    assert_eq!(make_app_page(""), "https://store.steampowered.com/app/");
}

#[test]
fn name_from_page() {
    let page = format!("<html>{}Half-Life 3{}</html>", APP_NAME_PREFIX, APP_NAME_SUFFIX);
    let mut s = ByteStream::new(page.into_bytes());
    assert_eq!(resolve_name(&mut s), "Half-Life 3");
}

#[test]
fn name_fallbacks() {
    let mut s = ByteStream::new(b"<html>nothing</html>".to_vec());
    assert_eq!(resolve_name(&mut s), UNKNOWN_GAME);
    let page = format!("{}{}", APP_NAME_PREFIX, APP_NAME_SUFFIX);
    let mut s = ByteStream::new(page.into_bytes());
    assert_eq!(resolve_name(&mut s), "Unknown game");
    let mut page = APP_NAME_PREFIX.as_bytes().to_vec();
    page.extend_from_slice(&[0xff, 0xfe]);
    page.extend_from_slice(APP_NAME_SUFFIX.as_bytes());
    let mut s = ByteStream::new(page);
    assert_eq!(resolve_name(&mut s), "Unknown game");
}

#[test]
fn game_name_decodes_utf8() {
    assert_eq!(game_name(Some("Café".as_bytes().to_vec())), "Café");
    assert_eq!(game_name(Some(vec![0xc3])), "Unknown game");
    assert_eq!(game_name(None), "Unknown game");
}

#[test]
fn watch_folder_disappears() {
    let before = vec!["221100".to_string()];
    let after: Vec<String> = Vec::new();
    let id = "221100".to_string();
    let present = contains_name(&before, &id);
    assert!(present);
    let (s, a) = watch_step(WatchState::Start, present);
    assert_eq!((s, a), (WatchState::Watching, WatchAction::Wait));
    let (s, a) = watch_step(s, contains_name(&before, &id));
    assert_eq!((s, a), (WatchState::Watching, WatchAction::Wait));
    let present = contains_name(&after, &id);
    assert!(!present);
    let (s, a) = watch_step(s, present);
    assert_eq!((s, a), (WatchState::Done, WatchAction::Shutdown));
    let (s, a) = watch_step(s, false);
    assert_eq!((s, a), (WatchState::Done, WatchAction::Stop));
    let (_, a) = watch_step(s, true);
    assert_eq!(a, WatchAction::Stop);
}

#[test]
fn watch_missing_at_start() {
    assert_eq!(
        watch_step(WatchState::Start, false),
        (WatchState::Done, WatchAction::ReportMissing)
    );
}

#[test]
fn shutdown_count_over_a_run() {
    let looks = [true, true, false, true, false];
    let mut s = WatchState::Start;
    let mut shutdowns = 0;
    for p in looks {
        let (n, a) = watch_step(s, p);
        if a == WatchAction::Shutdown {
            shutdowns += 1;
        }
        s = n;
    }
    assert_eq!(shutdowns, 1);
}

#[test]
fn contains_name_cases() {
    let names = vec!["10".to_string(), "221100".to_string()];
    assert!(contains_name(&names, &"221100".to_string()));
    assert!(!contains_name(&names, &"2211".to_string()));
    assert!(!contains_name(&Vec::new(), &"10".to_string()));
}

#[test]
fn listing_line_format() {
    assert_eq!(listing_line("221100", "Half-Life 3"), "221100 - Half-Life 3\n");
}
