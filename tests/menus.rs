use quanires::catalog::{entries_from_cards, links_from_decoded, AnimeEntry, ChapterInfo};
use quanires::menus::{
    chapter_choice, chapter_options, on_chapter_choice, on_play_choice, on_query_choice, play_choice, play_options,
    play_title, query_choice, query_options, search_question, select_chapter, ChapterChoice, MenuState, PlayChoice,
    QueryChoice,
};
use quanires::player::{player_args, run_succeeded, PlaybackRun};
use quanires::tracker::EpisodeTracker;

fn chapter(n: i32) -> ChapterInfo {
    ChapterInfo { number: n, url: format!("/ep{}", n) }
}

fn numbers(list: &[i32]) -> Vec<ChapterInfo> {
    list.iter().map(|&n| chapter(n)).collect()
}

#[test]
fn selection_has_both_neighbours() {
    let cs = numbers(&[1, 2, 3]);
    let s = select_chapter(&cs, "/ep2").unwrap();
    assert_eq!(s.current().number(), 2);
    assert_eq!(s.last().unwrap().number(), 1);
    assert_eq!(s.next().unwrap().number(), 3);
}

#[test]
fn selection_at_ends_and_gaps() {
    let cs = numbers(&[1, 2, 4, 5]);
    let first = select_chapter(&cs, "/ep1").unwrap();
    assert!(first.last().is_none());
    assert_eq!(first.next().unwrap().number(), 2);
    let gap = select_chapter(&cs, "/ep4").unwrap();
    assert!(gap.last().is_none());
    assert_eq!(gap.next().unwrap().url(), "/ep5");
    let end = select_chapter(&cs, "/ep5").unwrap();
    assert!(end.next().is_none());
    assert!(select_chapter(&cs, "/ep3").is_none());
}

#[test]
fn selection_takes_first_of_repeated_numbers() {
    let cs = vec![
        ChapterInfo { number: 1, url: "/a".to_string() },
        ChapterInfo { number: 1, url: "/b".to_string() },
        ChapterInfo { number: 2, url: "/c".to_string() },
    ];
    let s = select_chapter(&cs, "/c").unwrap();
    assert_eq!(s.last().unwrap().url(), "/a");
}

#[test]
fn selection_at_extreme_numbers() {
    let cs = numbers(&[i32::MIN, i32::MAX]);
    let low = select_chapter(&cs, &format!("/ep{}", i32::MIN)).unwrap();
    assert!(low.last().is_none());
    assert!(low.next().is_none());
}

#[test]
fn query_menu_options_and_choices() {
    let results = vec![AnimeEntry::new("Naruto".to_string(), "/naruto".to_string())];
    let opts = query_options(&results);
    assert_eq!(opts.len(), 3);
    assert_eq!(opts[0].label, "Naruto");
    assert_eq!(opts[0].value, "/naruto");
    assert_eq!(opts[1].value, "op_retry");
    assert_eq!(opts[2].value, "op_quit");
    assert_eq!(opts[2].hint.as_deref(), Some("Cerrar el programa"));
    assert!(matches!(query_choice(&results, "op_quit"), QueryChoice::Quit));
    assert!(matches!(query_choice(&results, "op_retry"), QueryChoice::Retry));
    assert!(matches!(query_choice(&results, "/other"), QueryChoice::Unknown));
    assert_eq!(search_question(false), "Que deseas ver?");
    assert_eq!(search_question(true), "prueba a buscar otra cosa. Que deseas ver?");
}

#[test]
fn chapter_menu_marks_watched() {
    let cs = numbers(&[1, 2]);
    let mut t = EpisodeTracker::empty();
    t.watch_episode("/naruto", 2);
    let opts = chapter_options(&cs, "/naruto", Some(&t));
    assert_eq!(opts.len(), 4);
    assert_eq!(opts[0].value, "op_back");
    assert_eq!(opts[1].value, "op_quit");
    assert_eq!(opts[2].label, "Capitulo 1");
    assert_eq!(opts[2].hint, None);
    assert_eq!(opts[3].label, "Capitulo 2");
    assert_eq!(opts[3].value, "/ep2");
    assert_eq!(opts[3].hint.as_deref(), Some("Visto"));
    let plain = chapter_options(&cs, "/naruto", None);
    assert_eq!(plain[3].hint, None);
    assert!(matches!(chapter_choice(&cs, "op_back"), ChapterChoice::Back));
    assert!(matches!(chapter_choice(&cs, "op_quit"), ChapterChoice::Quit));
    assert!(matches!(chapter_choice(&cs, "/nope"), ChapterChoice::Unknown));
}

#[test]
fn play_menu_options_depend_on_state() {
    let cs = numbers(&[1, 2]);
    let s = select_chapter(&cs, "/ep1").unwrap();
    let opts = play_options("/naruto", &s, None);
    let values: Vec<&str> = opts.iter().map(|o| o.value.as_str()).collect();
    assert_eq!(values, vec!["op_next_episode", "op_watch_other_anime", "op_watch_other_episode", "op_exit"]);
    let mut t = EpisodeTracker::empty();
    t.watch_episode("/naruto", 1);
    let s2 = select_chapter(&cs, "/ep2").unwrap();
    let seen = play_options("/naruto", &s2, Some(&t));
    let values: Vec<&str> = seen.iter().map(|o| o.value.as_str()).collect();
    assert_eq!(values, vec!["op_last_episode", "op_watch_other_anime", "op_watch_other_episode", "op_exit"]);
    let s1 = select_chapter(&cs, "/ep1").unwrap();
    let both = play_options("/naruto", &s1, Some(&t));
    assert_eq!(both[1].value, "op_unwatch");
    assert!(matches!(play_choice("op_exit"), PlayChoice::Quit));
    assert!(matches!(play_choice("op_unwatch"), PlayChoice::Unwatch));
    assert!(matches!(play_choice("?"), PlayChoice::Unknown));
    assert_eq!(play_title("Naruto", 12), "Naruto | Capitulo 12");
}

#[test]
fn play_menu_moves_between_episodes() {
    let cs = numbers(&[1, 2, 3]);
    let anime = AnimeEntry::new("Naruto".to_string(), "/naruto".to_string());
    let s = select_chapter(&cs, "/ep2").unwrap();
    match on_play_choice(anime.clone(), &cs, s, PlayChoice::Next) {
        MenuState::ChapterSelected { selection, .. } => assert_eq!(selection.current().number(), 3),
        _ => panic!("expected a chapter"),
    }
    let s = select_chapter(&cs, "/ep2").unwrap();
    match on_play_choice(anime.clone(), &cs, s, PlayChoice::Previous) {
        MenuState::ChapterSelected { selection, .. } => assert_eq!(selection.current().number(), 1),
        _ => panic!("expected a chapter"),
    }
    let s = select_chapter(&cs, "/ep2").unwrap();
    assert!(matches!(on_play_choice(anime.clone(), &cs, s, PlayChoice::OtherTitle), MenuState::Search { retry: false }));
    let s = select_chapter(&cs, "/ep2").unwrap();
    assert!(matches!(on_play_choice(anime, &cs, s, PlayChoice::Quit), MenuState::Terminated));
}

#[test]
fn player_decisions() {
    assert!(run_succeeded(true, Some(0)));
    assert!(run_succeeded(false, Some(-9)));
    assert!(!run_succeeded(false, Some(1)));
    assert!(!run_succeeded(false, None));
    let args = player_args("Naruto", 2, "http://a");
    assert_eq!(args, vec!["--title=\"Naruto | Capitulo 2\"".to_string(), "--no-terminal".to_string(), "http://a".to_string()]);
    let mut run = PlaybackRun::new(vec!["http://a".to_string(), "http://b".to_string()]);
    assert_eq!(run.next_url().as_deref(), Some("http://a"));
    run.report(false);
    assert_eq!(run.next_url().as_deref(), Some("http://b"));
    run.report(false);
    assert_eq!(run.next_url(), None);
    assert!(!run.played());
}

#[test]
fn search_to_watched_episode() {
    let cards = vec![(Some("Naruto".to_string()), Some("/naruto".to_string()))];
    let results = entries_from_cards(&cards).ok().unwrap();
    assert_eq!(results, vec![AnimeEntry::new("Naruto".to_string(), "/naruto".to_string())]);
    let state = on_query_choice(query_choice(&results, "/naruto"), false);
    let anime = match state {
        MenuState::TitleSelected { anime } => anime,
        _ => panic!("expected a title"),
    };
    assert_eq!(anime.url(), "/naruto");
    let cs = numbers(&[1, 2, 3]);
    let state = on_chapter_choice(anime, chapter_choice(&cs, "/ep2"));
    let (anime, selection) = match state {
        MenuState::ChapterSelected { anime, selection } => (anime, selection),
        _ => panic!("expected a chapter"),
    };
    assert_eq!(selection.last().unwrap().number(), 1);
    assert_eq!(selection.current().number(), 2);
    assert_eq!(selection.next().unwrap().number(), 3);
    let mut tracker = EpisodeTracker::empty();
    assert!(tracker.watch_episode(anime.url(), selection.current().number()));
    let links = links_from_decoded(vec![Some(b"http://a".to_vec()), Some(b"http://b".to_vec())]).ok().unwrap();
    assert_eq!(links.len(), 2);
    let mut run = PlaybackRun::new(links);
    let first = run.next_url().unwrap();
    assert_eq!(first, "http://a");
    run.report(first == "http://a");
    assert!(run.played());
    assert_eq!(run.next_url(), None);
    assert!(tracker.episode_is_seen("/naruto", &2));
}
