use quanires::decimal::{parse_i32, push_int_text};
use quanires::tracker::{save_dir, EpisodeTracker, TrackerError};

fn text(s: &str) -> Vec<char> {
    s.chars().collect()
}

#[test]
fn watch_then_seen() {
    let mut t = EpisodeTracker::empty();
    assert!(!t.episode_is_seen("/naruto", &2));
    assert!(t.watch_episode("/naruto", 2));
    assert!(t.episode_is_seen("/naruto", &2));
    assert!(!t.episode_is_seen("/naruto", &3));
    assert!(!t.episode_is_seen("/bleach", &2));
}

#[test]
fn unwatch_then_unseen() {
    let mut t = EpisodeTracker::empty();
    t.watch_episode("/naruto", 2);
    t.watch_episode("/naruto", 5);
    assert!(t.unwatch_episode("/naruto", 2));
    assert!(!t.episode_is_seen("/naruto", &2));
    assert!(t.episode_is_seen("/naruto", &5));
    assert!(!t.unwatch_episode("/naruto", 2));
}

#[test]
fn watch_twice_is_idempotent() {
    let mut t = EpisodeTracker::empty();
    assert!(t.watch_episode("/naruto", 7));
    let first = t.save_state();
    assert!(!t.watch_episode("/naruto", 7));
    assert_eq!(t.save_state(), first);
    assert_eq!(first, "/naruto <> 7");
}

#[test]
fn save_state_lists_titles_in_order() {
    let mut t = EpisodeTracker::empty();
    t.watch_episode("/a", 1);
    t.watch_episode("/b", 2);
    t.watch_episode("/a", 3);
    t.watch_episode("/c", -4);
    assert_eq!(t.save_state(), "/a <> 1,3\n/b <> 2\n/c <> -4");
}

#[test]
fn unwatching_the_last_episode_drops_the_title() {
    let mut t = EpisodeTracker::empty();
    t.watch_episode("/a", 1);
    t.watch_episode("/b", 2);
    t.unwatch_episode("/a", 1);
    assert_eq!(t.save_state(), "/b <> 2");
}

#[test]
fn saved_state_reads_back() {
    let mut t = EpisodeTracker::empty();
    t.watch_episode("https://x/anime/one", 1);
    t.watch_episode("https://x/anime/one", 12);
    t.watch_episode("https://x/anime/two", 2147483647);
    t.watch_episode("https://x/anime/two", -2147483648);
    let saved = t.save_state();
    let back = EpisodeTracker::new(&saved);
    assert_eq!(back.save_state(), saved);
    assert!(back.episode_is_seen("https://x/anime/one", &12));
    assert!(back.episode_is_seen("https://x/anime/two", &-2147483648));
    assert!(!back.episode_is_seen("https://x/anime/two", &12));
}

#[test]
fn new_skips_malformed_parts() {
    let t = EpisodeTracker::new("/a <> 1,x,2,2,99999999999\nno separator\n/b <> \n\n/c <> +3");
    assert!(t.episode_is_seen("/a", &1));
    assert!(t.episode_is_seen("/a", &2));
    assert!(t.episode_is_seen("/c", &3));
    assert!(!t.episode_is_seen("/b", &0));
    assert_eq!(t.save_state(), "/a <> 1,2\n/c <> 3");
}

#[test]
fn new_on_empty_text_is_empty() {
    let t = EpisodeTracker::new("");
    assert_eq!(t.save_state(), "");
}

#[test]
fn later_line_for_a_title_replaces_earlier() {
    let t = EpisodeTracker::new("/a <> 1\n/a <> 4");
    assert!(!t.episode_is_seen("/a", &1));
    assert!(t.episode_is_seen("/a", &4));
}

#[test]
fn save_dir_by_platform() {
    assert!(matches!(save_dir("windows", Some(1), Some(2)), Ok(1)));
    assert!(matches!(save_dir("linux", Some(1), Some(2)), Ok(2)));
    assert!(matches!(save_dir("linux", Some(1), None::<i32>), Err(TrackerError::SavePath)));
    assert!(matches!(save_dir("windows", None, Some(2)), Err(TrackerError::SavePath)));
    assert!(matches!(save_dir("macos", Some(1), Some(2)), Err(TrackerError::UnsupportedOs)));
}

#[test]
fn parse_i32_accepts_what_std_accepts() {
    assert_eq!(parse_i32(&text("42")), Some(42));
    assert_eq!(parse_i32(&text("+7")), Some(7));
    assert_eq!(parse_i32(&text("-0")), Some(0));
    assert_eq!(parse_i32(&text("007")), Some(7));
    assert_eq!(parse_i32(&text("-2147483648")), Some(i32::MIN));
    assert_eq!(parse_i32(&text("2147483647")), Some(i32::MAX));
    assert_eq!(parse_i32(&text("2147483648")), None);
    assert_eq!(parse_i32(&text("-2147483649")), None);
    assert_eq!(parse_i32(&text("")), None);
    assert_eq!(parse_i32(&text("-")), None);
    assert_eq!(parse_i32(&text("1a")), None);
    assert_eq!(parse_i32(&text(" 1")), None);
}

#[test]
fn push_int_text_writes_decimal() {
    for v in [0, 9, 10, -1, 12345, i32::MIN, i32::MAX] {
        let mut out = text("x");
        push_int_text(&mut out, v);
        let s: String = out.into_iter().collect();
        assert_eq!(s, format!("x{}", v));
    }
}
