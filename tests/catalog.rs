use quanires::catalog::{
    entries_from_cards, links_from_decoded, play_links, replace_all, search_results, search_url, AnimeEntry,
    ChapterInfo, ChapterPager, ChapterSelectionError, PlayLinksError, QueryAnimeEror,
};

fn card(name: &str, url: &str) -> String {
    format!("<li class=\"col mb-5 ficha_efecto\"><article><a href=\"{}\"><h3>{}</h3></a></article></li>", url, name)
}

fn chapters(n: usize, from: i32) -> Vec<ChapterInfo> {
    (0..n).map(|k| ChapterInfo { number: from + k as i32, url: format!("/ep/{}", from + k as i32) }).collect()
}

#[test]
fn search_url_encodes_the_query() {
    assert_eq!(search_url("Naruto"), "https://monoschinos2.com/buscar?q=Naruto");
    assert_eq!(search_url("one piece&x"), "https://monoschinos2.com/buscar?q=one%20piece%26x");
    assert_eq!(search_url("añ"), "https://monoschinos2.com/buscar?q=a%C3%B1");
}

#[test]
fn search_with_no_matching_elements_is_empty_result() {
    let html = "<html><body><ul><li class=\"col\"><a href=\"/x\"><h3>X</h3></a></li></ul></body></html>";
    assert!(matches!(search_results(html), Err(QueryAnimeEror::NoResults)));
    assert!(matches!(search_results(""), Err(QueryAnimeEror::NoResults)));
}

#[test]
fn search_extracts_entries_without_repeats() {
    let html = format!(
        "<html><body><ul>{}{}{}</ul></body></html>",
        card("Naruto", "/naruto"),
        card("Bleach", "/bleach"),
        card("Naruto", "/naruto")
    );
    let found = search_results(&html).ok().unwrap();
    assert_eq!(found.len(), 2);
    assert_eq!(found[0].name(), "Naruto");
    assert_eq!(found[0].url(), "/naruto");
    assert_eq!(found[1].name(), "Bleach");
    assert_eq!(found[1].url(), "/bleach");
}

#[test]
fn cards_without_heading_or_link_are_skipped() {
    let cards = vec![
        (None, Some("/a".to_string())),
        (Some("B".to_string()), None),
        (Some("C".to_string()), Some("/c".to_string())),
    ];
    let found = entries_from_cards(&cards).ok().unwrap();
    assert_eq!(found, vec![AnimeEntry::new("C".to_string(), "/c".to_string())]);
    assert!(matches!(entries_from_cards(&vec![]), Err(QueryAnimeEror::NoResults)));
    assert!(matches!(entries_from_cards(&vec![(None, None)]), Err(QueryAnimeEror::NoResults)));
}

#[test]
fn chapter_list_starts_from_title_page() {
    let html = "<html><head><meta name=\"csrf-token\" content=\"tok en\"></head><body>\
        <section class=\"caplist\" data-ajax=\"https://monoschinos2.com/ajax_pagination/42\"></section></body></html>";
    let pager = ChapterPager::start(html, "https://monoschinos2.com/anime/x").ok().unwrap();
    assert_eq!(pager.list_url(), "https://monoschinos2.com/caplist/42");
    assert_eq!(pager.referer(), "https://monoschinos2.com/anime/x");
    assert_eq!(pager.request_body(), "_token=tok%20en&p=0");
    assert!(!pager.is_done());
}

#[test]
fn chapter_list_without_endpoint_fails() {
    let html = "<html><head><meta name=\"csrf-token\" content=\"t\"></head><body></body></html>";
    assert!(matches!(ChapterPager::start(html, "/x"), Err(ChapterSelectionError::EpisodeListUrl)));
}

#[test]
fn chapter_list_without_token_fails() {
    let html = "<html><body><section class=\"caplist\" data-ajax=\"/ajax_pagination\"></section></body></html>";
    assert!(matches!(ChapterPager::start(html, "/x"), Err(ChapterSelectionError::Token)));
}

fn run_pages(sizes: &[usize]) -> (usize, usize) {
    let html = "<meta name=\"csrf-token\" content=\"t\"><section class=\"caplist\" data-ajax=\"/l\"></section>";
    let mut pager = ChapterPager::start(html, "/x").ok().unwrap();
    let mut requests = 0;
    let mut from = 1;
    while !pager.is_done() {
        assert_eq!(pager.request_body(), format!("_token=t&p={}", requests));
        let size = sizes[requests];
        requests += 1;
        pager.receive_page(chapters(size, from));
        from += size as i32;
    }
    let all = pager.into_chapters();
    (requests, all.len())
}

#[test]
fn pagination_stops_after_a_short_page() {
    assert_eq!(run_pages(&[50, 50, 37]), (3, 137));
}

#[test]
fn pagination_stops_after_an_empty_page() {
    assert_eq!(run_pages(&[50, 0]), (2, 50));
}

#[test]
fn pagination_keeps_page_order() {
    let html = "<meta name=\"csrf-token\" content=\"t\"><section class=\"caplist\" data-ajax=\"/l\"></section>";
    let mut pager = ChapterPager::start(html, "/x").ok().unwrap();
    pager.receive_page(chapters(50, 1));
    pager.receive_page(chapters(2, 51));
    assert!(pager.is_done());
    assert_eq!(pager.page_index(), 2);
    let all = pager.into_chapters();
    assert_eq!(all[0].number(), 1);
    assert_eq!(all[51].number(), 52);
    assert_eq!(all[51].url(), "/ep/52");
}

#[test]
fn play_links_decode_buttons() {
    let html = "<button class=\"play-video\" data-player=\"aHR0cDovL2E=\"></button>\
        <button class=\"play-video\" data-player=\"not base64!\"></button>\
        <button class=\"play-video\" data-player=\"__79\"></button>\
        <button class=\"play-video\"></button>\
        <button class=\"play-video\" data-player=\"aHR0cDovL2I=\"></button>\
        <button class=\"play-video\" data-player=\"aHR0cDovL2E=\"></button>";
    let links = play_links(html).ok().unwrap();
    assert_eq!(links, vec!["http://a".to_string(), "http://b".to_string()]);
}

#[test]
fn play_links_none_valid() {
    let html = "<button class=\"play-video\" data-player=\"__79\"></button>";
    assert!(matches!(play_links(html), Err(PlayLinksError::NoLinks)));
    assert!(matches!(play_links("<p>nothing</p>"), Err(PlayLinksError::NoLinks)));
}

#[test]
fn links_from_decoded_skips_invalid_text() {
    let decoded = vec![None, Some(vec![0xff]), Some(b"http://c".to_vec()), Some(b"http://c".to_vec())];
    assert_eq!(links_from_decoded(decoded).ok().unwrap(), vec!["http://c".to_string()]);
    assert!(matches!(links_from_decoded(vec![None]), Err(PlayLinksError::NoLinks)));
}

#[test]
fn replace_all_replaces_each_occurrence() {
    assert_eq!(replace_all("a-ajax_pagination-ajax_pagination", "ajax_pagination", "caplist"), "a-caplist-caplist");
    assert_eq!(replace_all("none", "xy", "z"), "none");
    assert_eq!(replace_all("aaa", "aa", "b"), "ba");
}
