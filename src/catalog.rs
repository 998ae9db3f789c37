//! The remote catalog: search results, the paginated chapter list and the
//! stream links of a chapter, read from the pages the service returns.
use vstd::prelude::*;
use vstd::utf8::{decode_utf8, encode_utf8, valid_utf8};
use base64::Engine;
use crate::decimal::{int_text, push_int_text};
use crate::text::{chars_of, join_with, push_all, push_joined, split_from, split_pattern, string_of};

verus! {

/// Relies on reqwest's error type only to carry a failed request.
#[verifier::external_type_specification]
#[verifier::external_body]
pub struct ExReqwestError(reqwest::Error);

pub const SEARCH_URL: &'static str = "https://monoschinos2.com/buscar?q=";
pub const SITE_HOST: &'static str = "monoschinos2.com";
pub const SITE_ORIGIN: &'static str = "https://monoschinos2.com";
pub const LIST_CONTENT_TYPE: &'static str = "application/x-www-form-urlencoded; charset=UTF8";
pub const LIST_ACCEPT: &'static str = "application/json, text/javascript, */*; q=0.01";
pub const RESULT_SELECTOR: &'static str = "li.col.mb-5.ficha_efecto > article > a";
pub const HEADING_SELECTOR: &'static str = "h3";
pub const LINK_ATTR: &'static str = "href";
pub const LIST_SELECTOR: &'static str = "section.caplist";
pub const LIST_ATTR: &'static str = "data-ajax";
pub const TOKEN_SELECTOR: &'static str = "meta[name='csrf-token']";
pub const TOKEN_ATTR: &'static str = "content";
pub const PLAY_SELECTOR: &'static str = "button.play-video";
pub const PLAY_ATTR: &'static str = "data-player";
pub const PAGE_SIZE: usize = 50;

/// For each element of `html` that `selector` matches, in document order,
/// its attribute `attr` if it has one; `None` for a selector that does not
/// parse.
pub uninterp spec fn selected_attrs(html: Seq<char>, selector: Seq<char>, attr: Seq<char>) -> Option<Seq<Option<Seq<char>>>>;

/// For each element of `html` that `selector` matches, in document order,
/// the inner HTML of its first descendant matching `heading` and its
/// attribute `attr`; `None` for a selector that does not parse.
pub uninterp spec fn selected_cards(html: Seq<char>, selector: Seq<char>, heading: Seq<char>, attr: Seq<char>) -> Option<Seq<(Option<Seq<char>>, Option<Seq<char>>)>>;

/// The bytes that URL-safe base64 (padded) decodes `s` to.
pub uninterp spec fn url_safe_base64_decoded(s: Seq<char>) -> Option<Seq<u8>>;

/// Relies on scraper's `Html::parse_document`, `Selector::parse`,
/// `Html::select` and `ElementRef::attr`.
#[verifier::external_body]
fn select_attrs(html: &str, selector: &str, attr: &str) -> (r: Option<Vec<Option<String>>>)
    ensures
        r.deep_view() == selected_attrs(html@, selector@, attr@),
{
    let sel = scraper::Selector::parse(selector).ok()?;
    let doc = scraper::Html::parse_document(html);
    Some(doc.select(&sel).map(|e| e.attr(attr).map(String::from)).collect())
}

/// Relies on scraper's `Html::parse_document`, `Selector::parse`,
/// `Html::select`, `ElementRef::select`, `ElementRef::inner_html` and
/// `ElementRef::attr`.
#[verifier::external_body]
fn select_cards(html: &str, selector: &str, heading: &str, attr: &str) -> (r: Option<Vec<(Option<String>, Option<String>)>>)
    ensures
        r.deep_view() == selected_cards(html@, selector@, heading@, attr@),
{
    let sel = scraper::Selector::parse(selector).ok()?;
    let head = scraper::Selector::parse(heading).ok()?;
    let doc = scraper::Html::parse_document(html);
    Some(doc.select(&sel).map(|e| (e.select(&head).next().map(|h| h.inner_html()), e.attr(attr).map(String::from))).collect())
}

/// Relies on base64's `URL_SAFE` engine `decode`; a decoding error gives
/// `None`.
#[verifier::external_body]
fn decode_url_safe(s: &str) -> (r: Option<Vec<u8>>)
    ensures
        r.deep_view() == url_safe_base64_decoded(s@),
{
    base64::engine::general_purpose::URL_SAFE.decode(s).ok()
}

/// Relies on `String::from_utf8`: the text the bytes encode, when they are
/// valid UTF-8.
#[verifier::external_body]
fn utf8_text(b: Vec<u8>) -> (r: Option<String>)
    ensures
        r is Some <==> valid_utf8(b@),
        r matches Some(s) ==> s@ == decode_utf8(b@),
{
    String::from_utf8(b).ok()
}

/// A byte that percent-encoding leaves as it is.
pub open spec fn url_safe_byte(b: u8) -> bool {
    (48 <= b <= 57) || (65 <= b <= 90) || (97 <= b <= 122) || b == 45 || b == 46 || b == 95 || b == 126
}

pub open spec fn hex_upper(d: u8) -> char {
    if d < 10 {
        ((d + 48) as u32) as char
    } else {
        ((d + 55) as u32) as char
    }
}

/// Each byte but ASCII letters, digits and `-._~` written as `%` and two
/// upper-case hex digits.
pub open spec fn percent_encoded(b: Seq<u8>) -> Seq<char>
    decreases b.len(),
{
    if b.len() == 0 {
        Seq::empty()
    } else {
        let c = b[0];
        (if url_safe_byte(c) {
            seq![(c as u32) as char]
        } else {
            seq!['%', hex_upper(c / 16), hex_upper(c % 16)]
        }) + percent_encoded(b.skip(1))
    }
}

/// Relies on urlencoding's `encode`: percent-encodes every UTF-8 byte but
/// ASCII letters, digits and `-._~`.
#[verifier::external_body]
fn url_encode(s: &str) -> (r: String)
    ensures
        r@ == percent_encoded(encode_utf8(s@)),
{
    urlencoding::encode(s).into_owned()
}

/// A title of the catalog: its display name and its locator.
#[derive(PartialEq, Eq, Hash, Clone, Default, Debug)]
pub struct AnimeEntry {
    name: String,
    url: String,
}

impl View for AnimeEntry {
    type V = (Seq<char>, Seq<char>);

    closed spec fn view(&self) -> (Seq<char>, Seq<char>) {
        (self.name@, self.url@)
    }
}

impl AnimeEntry {
    pub fn new(name: String, url: String) -> (r: AnimeEntry)
        ensures
            r@ == (name@, url@),
    {
        AnimeEntry { name, url }
    }

    pub fn name(&self) -> (r: &str)
        ensures
            r@ == self@.0,
    {
        self.name.as_str()
    }

    pub fn url(&self) -> (r: &str)
        ensures
            r@ == self@.1,
    {
        self.url.as_str()
    }
}

/// Why a search gave no titles.
#[derive(Debug)]
pub enum QueryAnimeEror {
    /// The request or its body failed.
    Request(reqwest::Error),
    /// The page held no title.
    NoResults,
}

/// The address of the search page for `query`.
pub fn search_url(query: &str) -> (r: String)
    ensures
        r@ == SEARCH_URL@ + percent_encoded(encode_utf8(query@)),
{
    let mut out = chars_of(SEARCH_URL);
    let enc = url_encode(query);
    push_all(&mut out, &chars_of(enc.as_str()));
    string_of(&out)
}

/// The titles that result cards name: each card with both a heading and a
/// link, repeats dropped, in the order first seen.
pub open spec fn card_entries(cards: Seq<(Option<Seq<char>>, Option<Seq<char>>)>) -> Seq<(Seq<char>, Seq<char>)>
    decreases cards.len(),
{
    if cards.len() == 0 {
        Seq::empty()
    } else {
        let acc = card_entries(cards.drop_last());
        let c = cards.last();
        match (c.0, c.1) {
            (Some(n), Some(u)) => if acc.contains((n, u)) {
                acc
            } else {
                acc.push((n, u))
            },
            _ => acc,
        }
    }
}

/// The titles that a search page lists.
pub open spec fn found_entries(html: Seq<char>) -> Seq<(Seq<char>, Seq<char>)> {
    match selected_cards(html, RESULT_SELECTOR@, HEADING_SELECTOR@, LINK_ATTR@) {
        Some(cards) => card_entries(cards),
        None => Seq::empty(),
    }
}

pub open spec fn entries_view(v: Seq<AnimeEntry>) -> Seq<(Seq<char>, Seq<char>)> {
    v.map_values(|e: AnimeEntry| e@)
}

/// Whether an entry with this name and locator is in `v`.
fn has_entry(v: &Vec<AnimeEntry>, name: &String, url: &String) -> (r: bool)
    ensures
        r == entries_view(v@).contains((name@, url@)),
{
    let mut i: usize = 0;
    while i < v.len()
        invariant
            i <= v@.len(),
            forall|j: int| 0 <= j < i ==> entries_view(v@)[j] != (name@, url@),
        decreases v@.len() - i,
    {
        if v[i].name == *name && v[i].url == *url {
            assert(entries_view(v@)[i as int] == (name@, url@));
            return true;
        }
        i = i + 1;
    }
    false
}

/// The titles named by result cards; fails with `NoResults` exactly when
/// no card has both a heading and a link.
pub fn entries_from_cards(cards: &Vec<(Option<String>, Option<String>)>) -> (r: Result<Vec<AnimeEntry>, QueryAnimeEror>)
    ensures
        match r {
            Ok(v) => card_entries(cards.deep_view()).len() > 0 && entries_view(v@) == card_entries(cards.deep_view()),
            Err(e) => card_entries(cards.deep_view()).len() == 0 && e is NoResults,
        },
{
    let ghost cv = cards.deep_view();
    let mut out: Vec<AnimeEntry> = Vec::new();
    let mut i: usize = 0;
    while i < cards.len()
        invariant
            i <= cards@.len(),
            cv == cards.deep_view(),
            entries_view(out@) == card_entries(cv.take(i as int)),
        decreases cards@.len() - i,
    {
        proof {
            assert(cv.take(i + 1).drop_last() =~= cv.take(i as int));
            assert(cv.take(i + 1).last() == cv[i as int]);
        }
        match (&cards[i].0, &cards[i].1) {
            (Some(n), Some(u)) => {
                if !has_entry(&out, n, u) {
                    let ghost before = entries_view(out@);
                    out.push(AnimeEntry { name: n.clone(), url: u.clone() });
                    assert(entries_view(out@) =~= before.push((n@, u@)));
                }
            },
            _ => {},
        }
        i = i + 1;
    }
    proof {
        assert(cv.take(i as int) =~= cv);
    }
    if out.len() == 0 {
        Err(QueryAnimeEror::NoResults)
    } else {
        Ok(out)
    }
}

/// The titles that a search page lists; fails with `NoResults` exactly
/// when it lists none.
pub fn search_results(html: &str) -> (r: Result<Vec<AnimeEntry>, QueryAnimeEror>)
    ensures
        match r {
            Ok(v) => found_entries(html@).len() > 0 && entries_view(v@) == found_entries(html@),
            Err(e) => found_entries(html@).len() == 0 && e is NoResults,
        },
{
    match select_cards(html, RESULT_SELECTOR, HEADING_SELECTOR, LINK_ATTR) {
        Some(cards) => entries_from_cards(&cards),
        None => Err(QueryAnimeEror::NoResults),
    }
}

/// One episode of a title: its number and the locator of its page.
#[derive(Clone, Debug)]
pub struct ChapterInfo {
    pub number: i32,
    pub url: String,
}

impl View for ChapterInfo {
    type V = (i32, Seq<char>);

    open spec fn view(&self) -> (i32, Seq<char>) {
        (self.number, self.url@)
    }
}

impl ChapterInfo {
    pub fn number(&self) -> (r: i32)
        ensures
            r == self.number,
    {
        self.number
    }

    pub fn url(&self) -> (r: &str)
        ensures
            r@ == self.url@,
    {
        self.url.as_str()
    }
}

pub open spec fn chapters_view(v: Seq<ChapterInfo>) -> Seq<(i32, Seq<char>)> {
    v.map_values(|c: ChapterInfo| c@)
}

/// Why the chapter list of a title could not be had.
#[derive(Debug)]
pub enum ChapterSelectionError {
    /// A request or its body failed.
    Request(reqwest::Error),
    /// The title page names no chapter-list endpoint.
    EpisodeListUrl,
    /// The title page holds no CSRF token.
    Token,
}

/// The attribute of the first matched element, if it has one.
pub open spec fn first_attr(found: Option<Seq<Option<Seq<char>>>>) -> Option<Seq<char>> {
    match found {
        Some(s) => if s.len() > 0 {
            s[0]
        } else {
            None
        },
        None => None,
    }
}

/// `s` with every occurrence of `pat`, left to right, replaced by `rep`.
pub open spec fn replaced(s: Seq<char>, pat: Seq<char>, rep: Seq<char>) -> Seq<char> {
    join_with(split_from(s, pat, 0), rep)
}

fn first_of(found: Option<Vec<Option<String>>>) -> (r: Option<String>)
    ensures
        r.deep_view() == first_attr(found.deep_view()),
{
    match found {
        Some(v) => {
            if v.len() > 0 {
                let mut v = v;
                let ghost dv = v.deep_view();
                let x = v.swap_remove(0);
                assert(x.deep_view() == dv[0]);
                x
            } else {
                None
            }
        },
        None => None,
    }
}

/// The pages of a title's chapter list, fetched one after another until
/// one comes back shorter than `PAGE_SIZE`.
pub struct ChapterPager {
    list_url: String,
    token: String,
    referer: String,
    page: i32,
    chapters: Vec<ChapterInfo>,
    done: bool,
}

impl ChapterPager {
    pub closed spec fn list_url_view(&self) -> Seq<char> {
        self.list_url@
    }

    pub closed spec fn token_view(&self) -> Seq<char> {
        self.token@
    }

    pub closed spec fn referer_view(&self) -> Seq<char> {
        self.referer@
    }

    /// How many pages have been received.
    pub closed spec fn pages(&self) -> int {
        self.page as int
    }

    pub closed spec fn received(&self) -> Seq<(i32, Seq<char>)> {
        chapters_view(self.chapters@)
    }

    pub closed spec fn finished(&self) -> bool {
        self.done
    }

    pub closed spec fn wf(&self) -> bool {
        self.page >= 0
    }

    /// Starts the list of a title from its page: the endpoint is the
    /// first `section.caplist`'s `data-ajax` with `ajax_pagination`
    /// replaced by `caplist`, and the token the first CSRF meta tag's
    /// content.
    pub fn start(page_html: &str, title_url: &str) -> (r: Result<ChapterPager, ChapterSelectionError>)
        ensures
            match r {
                Ok(p) => {
                    &&& first_attr(selected_attrs(page_html@, LIST_SELECTOR@, LIST_ATTR@)) matches Some(list)
                    &&& first_attr(selected_attrs(page_html@, TOKEN_SELECTOR@, TOKEN_ATTR@)) matches Some(token)
                    &&& p.list_url_view() == replaced(list, "ajax_pagination"@, "caplist"@)
                    &&& p.token_view() == token
                    &&& p.referer_view() == title_url@
                    &&& p.pages() == 0
                    &&& p.received().len() == 0
                    &&& !p.finished()
                    &&& p.wf()
                },
                Err(e) => {
                    ||| (e is EpisodeListUrl && first_attr(selected_attrs(page_html@, LIST_SELECTOR@, LIST_ATTR@)) is None)
                    ||| (e is Token && first_attr(selected_attrs(page_html@, LIST_SELECTOR@, LIST_ATTR@)) is Some
                        && first_attr(selected_attrs(page_html@, TOKEN_SELECTOR@, TOKEN_ATTR@)) is None)
                },
            },
    {
        let list = match first_of(select_attrs(page_html, LIST_SELECTOR, LIST_ATTR)) {
            Some(l) => l,
            None => {
                return Err(ChapterSelectionError::EpisodeListUrl);
            },
        };
        let token = match first_of(select_attrs(page_html, TOKEN_SELECTOR, TOKEN_ATTR)) {
            Some(t) => t,
            None => {
                return Err(ChapterSelectionError::Token);
            },
        };
        proof {
            reveal_strlit("ajax_pagination");
        }
        let list_url = replace_all(list.as_str(), "ajax_pagination", "caplist");
        let r = ChapterPager {
            list_url,
            token,
            referer: String::from_str(title_url),
            page: 0,
            chapters: Vec::new(),
            done: false,
        };
        assert(chapters_view(r.chapters@) =~= Seq::<(i32, Seq<char>)>::empty());
        Ok(r)
    }

    /// Where the pages are posted.
    pub fn list_url(&self) -> (r: &str)
        ensures
            r@ == self.list_url_view(),
    {
        self.list_url.as_str()
    }

    /// The title page, sent as the referer of each page request.
    pub fn referer(&self) -> (r: &str)
        ensures
            r@ == self.referer_view(),
    {
        self.referer.as_str()
    }

    /// Whether the last page has been received.
    pub fn is_done(&self) -> (r: bool)
        ensures
            r == self.finished(),
    {
        self.done
    }

    /// How many pages have been received.
    pub fn page_index(&self) -> (r: i32)
        ensures
            r as int == self.pages(),
    {
        self.page
    }

    /// The form body that asks for the next page.
    pub fn request_body(&self) -> (r: String)
        ensures
            r@ == "_token="@ + percent_encoded(encode_utf8(self.token_view())) + "&p="@ + int_text(self.pages()),
    {
        let mut out = chars_of("_token=");
        let enc = url_encode(self.token.as_str());
        push_all(&mut out, &chars_of(enc.as_str()));
        push_all(&mut out, &chars_of("&p="));
        push_int_text(&mut out, self.page);
        string_of(&out)
    }

    /// Takes in one page of chapters; the list is complete once a page
    /// holds fewer than `PAGE_SIZE` of them, an empty one included.
    pub fn receive_page(&mut self, caps: Vec<ChapterInfo>)
        requires
            old(self).wf(),
            !old(self).finished(),
            old(self).pages() < i32::MAX,
        ensures
            final(self).wf(),
            final(self).received() == old(self).received() + chapters_view(caps@),
            final(self).pages() == old(self).pages() + 1,
            final(self).finished() == (caps@.len() < PAGE_SIZE),
            final(self).list_url_view() == old(self).list_url_view(),
            final(self).token_view() == old(self).token_view(),
            final(self).referer_view() == old(self).referer_view(),
    {
        let short = caps.len() < PAGE_SIZE;
        let ghost before = chapters_view(self.chapters@);
        let mut caps = caps;
        let ghost added = chapters_view(caps@);
        self.chapters.append(&mut caps);
        assert(chapters_view(self.chapters@) =~= before + added);
        self.page = self.page + 1;
        self.done = short;
    }

    /// The chapters of every page received, in order.
    pub fn into_chapters(self) -> (r: Vec<ChapterInfo>)
        ensures
            chapters_view(r@) == self.received(),
    {
        self.chapters
    }
}

/// `s` with every occurrence of a nonempty `pat`, left to right, replaced
/// by `rep`, as `str::replace` does.
pub fn replace_all(s: &str, pat: &str, rep: &str) -> (r: String)
    requires
        pat@.len() > 0,
    ensures
        r@ == replaced(s@, pat@, rep@),
{
    let sv = chars_of(s);
    let pv = chars_of(pat);
    let rv = chars_of(rep);
    let parts = split_pattern(&sv, &pv, 0);
    let mut out: Vec<char> = Vec::new();
    push_joined(&mut out, &parts, &rv);
    assert(out@ =~= replaced(s@, pat@, rep@));
    string_of(&out)
}

/// Why a chapter gave no stream link.
#[derive(Debug)]
pub enum PlayLinksError {
    /// The request or its body failed.
    Request(reqwest::Error),
    /// No play button held a link that decodes.
    NoLinks,
}

/// The text that decoded bytes stand for, when they are UTF-8.
pub open spec fn link_text(d: Option<Seq<u8>>) -> Option<Seq<char>> {
    match d {
        Some(b) => if valid_utf8(b) {
            Some(decode_utf8(b))
        } else {
            None
        },
        None => None,
    }
}

/// The links that decoded attributes give: those that are UTF-8, repeats
/// dropped, in the order first seen.
pub open spec fn links_of(decoded: Seq<Option<Seq<u8>>>) -> Seq<Seq<char>>
    decreases decoded.len(),
{
    if decoded.len() == 0 {
        Seq::empty()
    } else {
        let acc = links_of(decoded.drop_last());
        match link_text(decoded.last()) {
            Some(t) => if acc.contains(t) {
                acc
            } else {
                acc.push(t)
            },
            None => acc,
        }
    }
}

/// Each play button's attribute, base64-decoded; `None` where it is
/// missing or does not decode.
pub open spec fn attr_decodings(attrs: Seq<Option<Seq<char>>>) -> Seq<Option<Seq<u8>>> {
    attrs.map_values(|a: Option<Seq<char>>| match a {
        Some(x) => url_safe_base64_decoded(x),
        None => None,
    })
}

/// The stream links a chapter page offers.
pub open spec fn page_links(html: Seq<char>) -> Seq<Seq<char>> {
    match selected_attrs(html, PLAY_SELECTOR@, PLAY_ATTR@) {
        Some(attrs) => links_of(attr_decodings(attrs)),
        None => Seq::empty(),
    }
}

fn has_link(v: &Vec<String>, t: &String) -> (r: bool)
    ensures
        r == v.deep_view().contains(t@),
{
    let mut i: usize = 0;
    while i < v.len()
        invariant
            i <= v@.len(),
            forall|j: int| 0 <= j < i ==> v.deep_view()[j] != t@,
        decreases v@.len() - i,
    {
        if v[i] == *t {
            assert(v.deep_view()[i as int] == t@);
            return true;
        }
        i = i + 1;
    }
    false
}

/// The links that decoded play-button attributes give; fails with
/// `NoLinks` exactly when none is valid UTF-8.
pub fn links_from_decoded(decoded: Vec<Option<Vec<u8>>>) -> (r: Result<Vec<String>, PlayLinksError>)
    ensures
        match r {
            Ok(v) => links_of(decoded.deep_view()).len() > 0 && v.deep_view() == links_of(decoded.deep_view()),
            Err(e) => links_of(decoded.deep_view()).len() == 0 && e is NoLinks,
        },
{
    let ghost dv = decoded.deep_view();
    let mut rest = decoded;
    let mut out: Vec<String> = Vec::new();
    let n = rest.len();
    let mut i: usize = 0;
    while i < n
        invariant
            i <= n == dv.len(),
            rest.deep_view() == dv.skip(i as int),
            out.deep_view() == links_of(dv.take(i as int)),
        decreases n - i,
    {
        proof {
            assert(dv.take(i + 1).drop_last() =~= dv.take(i as int));
            assert(dv.take(i + 1).last() == dv[i as int]);
            assert(rest.deep_view()[0] == dv[i as int]);
        }
        let ghost rv = rest.deep_view();
        assert(rest@.len() == rv.len());
        assert(rv[0] == rest@[0].deep_view());
        let item = rest.remove(0);
        assert(item.deep_view() == dv[i as int]);
        assert(rest.deep_view() =~= rv.skip(1));
        assert(dv.skip(i + 1) =~= dv.skip(i as int).skip(1));
        match item {
            Some(bytes) => {
                assert(bytes.deep_view() =~= bytes@);
                match utf8_text(bytes) {
                    Some(t) => {
                        if !has_link(&out, &t) {
                            let ghost before = out.deep_view();
                            out.push(t);
                            assert(out.deep_view() =~= before.push(t@));
                        }
                    },
                    None => {},
                }
            },
            None => {},
        }
        i = i + 1;
    }
    proof {
        assert(dv.take(i as int) =~= dv);
    }
    if out.len() == 0 {
        Err(PlayLinksError::NoLinks)
    } else {
        Ok(out)
    }
}

/// The stream links a chapter page offers; fails with `NoLinks` exactly
/// when it offers none.
pub fn play_links(html: &str) -> (r: Result<Vec<String>, PlayLinksError>)
    ensures
        match r {
            Ok(v) => page_links(html@).len() > 0 && v.deep_view() == page_links(html@),
            Err(e) => page_links(html@).len() == 0 && e is NoLinks,
        },
{
    let attrs = match select_attrs(html, PLAY_SELECTOR, PLAY_ATTR) {
        Some(a) => a,
        None => {
            return Err(PlayLinksError::NoLinks);
        },
    };
    let ghost av = attrs.deep_view();
    let mut decoded: Vec<Option<Vec<u8>>> = Vec::new();
    let mut i: usize = 0;
    while i < attrs.len()
        invariant
            i <= attrs@.len(),
            av == attrs.deep_view(),
            decoded.deep_view() == attr_decodings(av).take(i as int),
        decreases attrs@.len() - i,
    {
        let d = match &attrs[i] {
            Some(a) => decode_url_safe(a.as_str()),
            None => None,
        };
        let ghost before = decoded.deep_view();
        decoded.push(d);
        assert(decoded.deep_view() =~= before.push(d.deep_view()));
        assert(attr_decodings(av).take(i + 1) =~= attr_decodings(av).take(i as int).push(attr_decodings(av)[i as int]));
        i = i + 1;
    }
    assert(attr_decodings(av).take(i as int) =~= attr_decodings(av));
    links_from_decoded(decoded)
}

} // verus!
