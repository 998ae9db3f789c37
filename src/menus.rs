//! The decisions of the navigation menus: which options each menu shows,
//! what a choice leads to, and which chapters neighbour the one chosen.
use vstd::prelude::*;
use crate::catalog::{AnimeEntry, ChapterInfo, chapters_view, entries_view};
use crate::decimal::{int_text, push_int_text};
use crate::text::{chars_of, push_all, string_of};
use crate::tracker::{EpisodeTracker, is_seen};

verus! {

pub const FIRST_QUESTION: &'static str = "Que deseas ver?";
pub const RETRY_QUESTION: &'static str = "prueba a buscar otra cosa. Que deseas ver?";
pub const OP_RETRY: &'static str = "op_retry";
pub const OP_QUIT: &'static str = "op_quit";
pub const OP_BACK: &'static str = "op_back";
pub const OP_LAST_EPISODE: &'static str = "op_last_episode";
pub const OP_NEXT_EPISODE: &'static str = "op_next_episode";
pub const OP_UNWATCH: &'static str = "op_unwatch";
pub const OP_OTHER_ANIME: &'static str = "op_watch_other_anime";
pub const OP_OTHER_EPISODE: &'static str = "op_watch_other_episode";
pub const OP_EXIT: &'static str = "op_exit";
pub const CHAPTER_LABEL: &'static str = "Capitulo ";
pub const WATCHED_HINT: &'static str = "Visto";

/// One entry of a choice list: what is shown, what choosing it returns,
/// and an optional hint shown beside it.
pub struct MenuOption {
    pub label: String,
    pub value: String,
    pub hint: Option<String>,
}

impl View for MenuOption {
    type V = (Seq<char>, Seq<char>, Option<Seq<char>>);

    open spec fn view(&self) -> (Seq<char>, Seq<char>, Option<Seq<char>>) {
        (self.label@, self.value@, match self.hint {
            Some(h) => Some(h@),
            None => None,
        })
    }
}

pub open spec fn options_view(v: Seq<MenuOption>) -> Seq<(Seq<char>, Seq<char>, Option<Seq<char>>)> {
    v.map_values(|o: MenuOption| o@)
}

fn option(label: &str, value: &str, hint: Option<&str>) -> (r: MenuOption)
    ensures
        r@ == (label@, value@, match hint {
            Some(h) => Some(h@),
            None => None,
        }),
{
    MenuOption {
        label: String::from_str(label),
        value: String::from_str(value),
        hint: match hint {
            Some(h) => Some(String::from_str(h)),
            None => None,
        },
    }
}

/// The question the search menu asks; another one after a search that
/// found nothing.
pub fn search_question(retry: bool) -> (r: &'static str)
    ensures
        r@ == if retry {
            RETRY_QUESTION@
        } else {
            FIRST_QUESTION@
        },
{
    if retry {
        RETRY_QUESTION
    } else {
        FIRST_QUESTION
    }
}

/// The search-result menu: each title by name with its locator as value,
/// then a new search and quitting.
pub open spec fn query_options_spec(results: Seq<(Seq<char>, Seq<char>)>) -> Seq<(Seq<char>, Seq<char>, Option<Seq<char>>)> {
    results.map_values(|e: (Seq<char>, Seq<char>)| (e.0, e.1, None::<Seq<char>>)) + seq![
        ("Volver a buscar"@, OP_RETRY@, Some("Realiza otra busqueda"@)),
        ("Salir"@, OP_QUIT@, Some("Cerrar el programa"@)),
    ]
}

pub fn query_options(results: &Vec<AnimeEntry>) -> (r: Vec<MenuOption>)
    ensures
        options_view(r@) == query_options_spec(entries_view(results@)),
{
    let mut out: Vec<MenuOption> = Vec::new();
    let mut i: usize = 0;
    while i < results.len()
        invariant
            i <= results@.len(),
            options_view(out@) == entries_view(results@).take(i as int).map_values(|e: (Seq<char>, Seq<char>)| (e.0, e.1, None::<Seq<char>>)),
        decreases results@.len() - i,
    {
        let o = option(results[i].name(), results[i].url(), None);
        let ghost before = options_view(out@);
        out.push(o);
        proof {
            assert(options_view(out@) =~= before.push(o@));
            assert(entries_view(results@).take(i + 1).map_values(|e: (Seq<char>, Seq<char>)| (e.0, e.1, None::<Seq<char>>))
                =~= entries_view(results@).take(i as int).map_values(|e: (Seq<char>, Seq<char>)| (e.0, e.1, None::<Seq<char>>)).push(o@));
        }
        i = i + 1;
    }
    let ghost before = options_view(out@);
    out.push(option("Volver a buscar", OP_RETRY, Some("Realiza otra busqueda")));
    out.push(option("Salir", OP_QUIT, Some("Cerrar el programa")));
    proof {
        assert(entries_view(results@).take(i as int) =~= entries_view(results@));
        assert(options_view(out@) =~= query_options_spec(entries_view(results@)));
    }
    out
}

/// The first index at or after `i` of an entry whose locator is `url`.
pub open spec fn entry_with_url(es: Seq<(Seq<char>, Seq<char>)>, url: Seq<char>, i: int) -> Option<int>
    decreases es.len() - i,
{
    if i < 0 || i >= es.len() {
        None
    } else if es[i].1 == url {
        Some(i)
    } else {
        entry_with_url(es, url, i + 1)
    }
}

/// What a choice in the search-result menu leads to.
pub enum QueryChoice {
    Quit,
    Retry,
    Title(AnimeEntry),
    /// The choice names no option of the menu.
    Unknown,
}

pub fn query_choice(results: &Vec<AnimeEntry>, choice: &str) -> (r: QueryChoice)
    ensures
        choice@ == OP_QUIT@ ==> r is Quit,
        choice@ == OP_RETRY@ ==> r is Retry,
        choice@ != OP_QUIT@ && choice@ != OP_RETRY@ ==> match entry_with_url(entries_view(results@), choice@, 0) {
            Some(i) => r matches QueryChoice::Title(e) && e@ == entries_view(results@)[i],
            None => r is Unknown,
        },
{
    proof {
        reveal_strlit("op_quit");
        reveal_strlit("op_retry");
        assert(OP_QUIT@ != OP_RETRY@) by {
            assert(OP_QUIT@[3] != OP_RETRY@[3]);
        }
    }
    let c = String::from_str(choice);
    let quit = String::from_str(OP_QUIT);
    let retry = String::from_str(OP_RETRY);
    if c == quit {
        return QueryChoice::Quit;
    }
    if c == retry {
        return QueryChoice::Retry;
    }
    assert(choice@ != OP_QUIT@ && choice@ != OP_RETRY@);
    let ghost es = entries_view(results@);
    let mut i: usize = 0;
    while i < results.len()
        invariant
            i <= results@.len(),
            es == entries_view(results@),
            c@ == choice@,
            choice@ != OP_QUIT@ && choice@ != OP_RETRY@,
            entry_with_url(es, choice@, 0) == entry_with_url(es, choice@, i as int),
        decreases results@.len() - i,
    {
        if String::from_str(results[i].url()) == c {
            let e = AnimeEntry::new(String::from_str(results[i].name()), String::from_str(results[i].url()));
            assert(es[i as int] == results@[i as int]@);
            return QueryChoice::Title(e);
        }
        i = i + 1;
    }
    QueryChoice::Unknown
}

/// The chapter chosen, with the chapters numbered one less and one more
/// where the list has them.
pub struct ChapterSelection {
    last: Option<ChapterInfo>,
    current: ChapterInfo,
    next: Option<ChapterInfo>,
}

pub open spec fn chapter_opt_view(c: Option<ChapterInfo>) -> Option<(i32, Seq<char>)> {
    match c {
        Some(x) => Some(x@),
        None => None,
    }
}

impl View for ChapterSelection {
    type V = (Option<(i32, Seq<char>)>, (i32, Seq<char>), Option<(i32, Seq<char>)>);

    closed spec fn view(&self) -> Self::V {
        (chapter_opt_view(self.last), self.current@, chapter_opt_view(self.next))
    }
}

impl ChapterSelection {
    pub fn last(&self) -> (r: Option<&ChapterInfo>)
        ensures
            match r {
                Some(c) => self@.0 == Some(c@),
                None => self@.0 is None,
            },
    {
        match &self.last {
            Some(c) => Some(c),
            None => None,
        }
    }

    pub fn current(&self) -> (r: &ChapterInfo)
        ensures
            r@ == self@.1,
    {
        &self.current
    }

    pub fn next(&self) -> (r: Option<&ChapterInfo>)
        ensures
            match r {
                Some(c) => self@.2 == Some(c@),
                None => self@.2 is None,
            },
    {
        match &self.next {
            Some(c) => Some(c),
            None => None,
        }
    }
}

/// The first index at or after `i` of a chapter whose locator is `url`.
pub open spec fn chapter_with_url(cs: Seq<(i32, Seq<char>)>, url: Seq<char>, i: int) -> Option<int>
    decreases cs.len() - i,
{
    if i < 0 || i >= cs.len() {
        None
    } else if cs[i].1 == url {
        Some(i)
    } else {
        chapter_with_url(cs, url, i + 1)
    }
}

/// The first index at or after `i` of a chapter numbered `n`.
pub open spec fn chapter_numbered(cs: Seq<(i32, Seq<char>)>, n: int, i: int) -> Option<int>
    decreases cs.len() - i,
{
    if i < 0 || i >= cs.len() {
        None
    } else if cs[i].0 == n {
        Some(i)
    } else {
        chapter_numbered(cs, n, i + 1)
    }
}

/// The first chapter numbered `n`, if any.
pub open spec fn numbered(cs: Seq<(i32, Seq<char>)>, n: int) -> Option<(i32, Seq<char>)> {
    match chapter_numbered(cs, n, 0) {
        Some(j) => Some(cs[j]),
        None => None,
    }
}

/// The selection for the first chapter whose locator is `url`.
pub open spec fn selection_of(cs: Seq<(i32, Seq<char>)>, url: Seq<char>) -> Option<(Option<(i32, Seq<char>)>, (i32, Seq<char>), Option<(i32, Seq<char>)>)> {
    match chapter_with_url(cs, url, 0) {
        Some(i) => Some((numbered(cs, cs[i].0 - 1), cs[i], numbered(cs, cs[i].0 + 1))),
        None => None,
    }
}

pub proof fn lemma_chapter_with_url(cs: Seq<(i32, Seq<char>)>, url: Seq<char>, i: int)
    requires
        0 <= i,
    ensures
        chapter_with_url(cs, url, i) matches Some(j) ==> i <= j < cs.len() && cs[j].1 == url,
        chapter_with_url(cs, url, i) matches Some(j) ==> forall|k: int| i <= k < j ==> (#[trigger] cs[k]).1 != url,
        chapter_with_url(cs, url, i) is None ==> forall|j: int| i <= j < cs.len() ==> (#[trigger] cs[j]).1 != url,
    decreases cs.len() - i,
{
    if i < cs.len() && cs[i].1 != url {
        lemma_chapter_with_url(cs, url, i + 1);
    }
}

pub proof fn lemma_chapter_numbered(cs: Seq<(i32, Seq<char>)>, n: int, i: int)
    requires
        0 <= i,
    ensures
        chapter_numbered(cs, n, i) matches Some(j) ==> i <= j < cs.len() && cs[j].0 == n,
        chapter_numbered(cs, n, i) is None ==> forall|j: int| i <= j < cs.len() ==> (#[trigger] cs[j]).0 != n,
    decreases cs.len() - i,
{
    if i < cs.len() && cs[i].0 != n {
        lemma_chapter_numbered(cs, n, i + 1);
    }
}

/// Choosing a chapter of a list gives a selection whose current chapter is
/// the one chosen, with a previous chapter exactly when some chapter is
/// numbered one less, and a next one exactly when some chapter is numbered
/// one more; each neighbour carries that number.
pub proof fn lemma_selection_neighbours(cs: Seq<(i32, Seq<char>)>, url: Seq<char>, i: int)
    requires
        0 <= i < cs.len(),
        cs[i].1 == url,
        forall|k: int| 0 <= k < i ==> (#[trigger] cs[k]).1 != url,
    ensures
        selection_of(cs, url) matches Some(t) && {
            &&& t.1 == cs[i]
            &&& (t.0 is Some <==> exists|j: int| 0 <= j < cs.len() && (#[trigger] cs[j]).0 == cs[i].0 - 1)
            &&& (t.0 matches Some(p) ==> p.0 == cs[i].0 - 1)
            &&& (t.2 is Some <==> exists|j: int| 0 <= j < cs.len() && (#[trigger] cs[j]).0 == cs[i].0 + 1)
            &&& (t.2 matches Some(p) ==> p.0 == cs[i].0 + 1)
        },
{
    lemma_chapter_with_url(cs, url, 0);
    lemma_chapter_numbered(cs, cs[i].0 - 1, 0);
    lemma_chapter_numbered(cs, cs[i].0 + 1, 0);
    let j = chapter_with_url(cs, url, 0)->Some_0;
    assert(j == i);
}

fn find_numbered(chapters: &Vec<ChapterInfo>, n: i64) -> (r: Option<ChapterInfo>)
    ensures
        chapter_opt_view(r) == numbered(chapters_view(chapters@), n as int),
{
    let ghost cs = chapters_view(chapters@);
    let mut i: usize = 0;
    while i < chapters.len()
        invariant
            i <= chapters@.len(),
            cs == chapters_view(chapters@),
            chapter_numbered(cs, n as int, 0) == chapter_numbered(cs, n as int, i as int),
        decreases chapters@.len() - i,
    {
        if chapters[i].number as i64 == n {
            assert(cs[i as int] == chapters@[i as int]@);
            return Some(ChapterInfo { number: chapters[i].number, url: chapters[i].url.clone() });
        }
        assert(cs[i as int] == chapters@[i as int]@);
        i = i + 1;
    }
    None
}

/// The selection for the chapter whose locator is `url`: that chapter, and
/// the first chapters numbered one less and one more; `None` when no
/// chapter has that locator.
pub fn select_chapter(chapters: &Vec<ChapterInfo>, url: &str) -> (r: Option<ChapterSelection>)
    ensures
        match r {
            Some(s) => selection_of(chapters_view(chapters@), url@) == Some(s@),
            None => selection_of(chapters_view(chapters@), url@) is None,
        },
{
    let ghost cs = chapters_view(chapters@);
    let key = String::from_str(url);
    let mut i: usize = 0;
    while i < chapters.len()
        invariant
            i <= chapters@.len(),
            cs == chapters_view(chapters@),
            key@ == url@,
            chapter_with_url(cs, url@, 0) == chapter_with_url(cs, url@, i as int),
        decreases chapters@.len() - i,
    {
        assert(cs[i as int] == chapters@[i as int]@);
        if chapters[i].url == key {
            let n = chapters[i].number as i64;
            let current = ChapterInfo { number: chapters[i].number, url: chapters[i].url.clone() };
            let last = find_numbered(chapters, n - 1);
            let next = find_numbered(chapters, n + 1);
            let s = ChapterSelection { last, current, next };
            return Some(s);
        }
        i = i + 1;
    }
    None
}

/// What a choice in the chapter menu leads to.
pub enum ChapterChoice {
    Quit,
    Back,
    Play(ChapterSelection),
    /// The choice names no option of the menu.
    Unknown,
}

pub fn chapter_choice(chapters: &Vec<ChapterInfo>, choice: &str) -> (r: ChapterChoice)
    ensures
        choice@ == OP_QUIT@ ==> r is Quit,
        choice@ == OP_BACK@ ==> r is Back,
        choice@ != OP_QUIT@ && choice@ != OP_BACK@ ==> match selection_of(chapters_view(chapters@), choice@) {
            Some(t) => r matches ChapterChoice::Play(s) && s@ == t,
            None => r is Unknown,
        },
{
    proof {
        reveal_strlit("op_quit");
        reveal_strlit("op_back");
        assert(OP_QUIT@ != OP_BACK@) by {
            assert(OP_QUIT@[3] != OP_BACK@[3]);
        }
    }
    let c = String::from_str(choice);
    if c == String::from_str(OP_QUIT) {
        return ChapterChoice::Quit;
    }
    if c == String::from_str(OP_BACK) {
        return ChapterChoice::Back;
    }
    match select_chapter(chapters, choice) {
        Some(s) => ChapterChoice::Play(s),
        None => ChapterChoice::Unknown,
    }
}

/// `Capitulo <n>`.
pub open spec fn chapter_label(n: i32) -> Seq<char> {
    CHAPTER_LABEL@ + int_text(n as int)
}

/// Whether the history, where there is one, has seen this episode.
pub open spec fn seen_in(hist: Option<Seq<(Seq<char>, Seq<i32>)>>, url: Seq<char>, n: i32) -> bool {
    match hist {
        Some(h) => is_seen(h, url, n),
        None => false,
    }
}

pub open spec fn chapter_option_spec(c: (i32, Seq<char>), url: Seq<char>, hist: Option<Seq<(Seq<char>, Seq<i32>)>>) -> (Seq<char>, Seq<char>, Option<Seq<char>>) {
    (chapter_label(c.0), c.1, if seen_in(hist, url, c.0) {
        Some(WATCHED_HINT@)
    } else {
        None
    })
}

/// The chapter menu: going back and quitting, then each chapter with its
/// locator as value, hinted when the history has seen it.
pub open spec fn chapter_options_spec(cs: Seq<(i32, Seq<char>)>, url: Seq<char>, hist: Option<Seq<(Seq<char>, Seq<i32>)>>) -> Seq<(Seq<char>, Seq<char>, Option<Seq<char>>)> {
    seq![
        ("Atras"@, OP_BACK@, Some("Realiza otra busqueda"@)),
        ("Salir"@, OP_QUIT@, Some("Cerrar el programa"@)),
    ] + cs.map_values(|c: (i32, Seq<char>)| chapter_option_spec(c, url, hist))
}

pub open spec fn tracker_view(t: Option<&EpisodeTracker>) -> Option<Seq<(Seq<char>, Seq<i32>)>> {
    match t {
        Some(x) => Some(x@),
        None => None,
    }
}

pub fn chapter_options(chapters: &Vec<ChapterInfo>, anime_url: &str, tracker: Option<&EpisodeTracker>) -> (r: Vec<MenuOption>)
    requires
        tracker matches Some(t) ==> t.wf(),
    ensures
        options_view(r@) == chapter_options_spec(chapters_view(chapters@), anime_url@, tracker_view(tracker)),
{
    let ghost cs = chapters_view(chapters@);
    let ghost hist = tracker_view(tracker);
    let mut out: Vec<MenuOption> = Vec::new();
    out.push(option("Atras", OP_BACK, Some("Realiza otra busqueda")));
    out.push(option("Salir", OP_QUIT, Some("Cerrar el programa")));
    let ghost head = options_view(out@);
    let mut i: usize = 0;
    while i < chapters.len()
        invariant
            i <= chapters@.len(),
            cs == chapters_view(chapters@),
            hist == tracker_view(tracker),
            tracker matches Some(t) ==> t.wf(),
            head == seq![
                ("Atras"@, OP_BACK@, Some("Realiza otra busqueda"@)),
                ("Salir"@, OP_QUIT@, Some("Cerrar el programa"@)),
            ],
            options_view(out@) == head + cs.take(i as int).map_values(|c: (i32, Seq<char>)| chapter_option_spec(c, anime_url@, hist)),
        decreases chapters@.len() - i,
    {
        let n = chapters[i].number;
        let mut label = chars_of(CHAPTER_LABEL);
        push_int_text(&mut label, n);
        let seen = match tracker {
            Some(t) => t.episode_is_seen(anime_url, &n),
            None => false,
        };
        let o = MenuOption {
            label: string_of(&label),
            value: chapters[i].url.clone(),
            hint: if seen {
                Some(String::from_str(WATCHED_HINT))
            } else {
                None
            },
        };
        let ghost before = options_view(out@);
        out.push(o);
        proof {
            assert(cs[i as int] == chapters@[i as int]@);
            assert(o@ == chapter_option_spec(cs[i as int], anime_url@, hist));
            assert(options_view(out@) =~= before.push(o@));
            assert(cs.take(i + 1).map_values(|c: (i32, Seq<char>)| chapter_option_spec(c, anime_url@, hist))
                =~= cs.take(i as int).map_values(|c: (i32, Seq<char>)| chapter_option_spec(c, anime_url@, hist)).push(o@));
        }
        i = i + 1;
    }
    proof {
        assert(cs.take(i as int) =~= cs);
    }
    out
}

/// The menu after a chapter is chosen: previous and next episode where
/// they exist, unmarking when the history has seen it, then another
/// title, another episode and quitting.
pub open spec fn play_options_spec(sel: (Option<(i32, Seq<char>)>, (i32, Seq<char>), Option<(i32, Seq<char>)>), seen: bool) -> Seq<(Seq<char>, Seq<char>, Option<Seq<char>>)> {
    (if sel.0 is Some { seq![("Anterior episodio"@, OP_LAST_EPISODE@, None::<Seq<char>>)] } else { Seq::empty() })
    + (if sel.2 is Some { seq![("Siguiente episodio"@, OP_NEXT_EPISODE@, None::<Seq<char>>)] } else { Seq::empty() })
    + (if seen { seq![("Desmarcar como visto"@, OP_UNWATCH@, None::<Seq<char>>)] } else { Seq::empty() })
    + seq![
        ("Ver otro anime"@, OP_OTHER_ANIME@, None::<Seq<char>>),
        ("Ver otro capitulo"@, OP_OTHER_EPISODE@, None::<Seq<char>>),
        ("Salir"@, OP_EXIT@, Some("Cerrar el programa y el reproductor"@)),
    ]
}

pub fn play_options(anime_url: &str, selection: &ChapterSelection, tracker: Option<&EpisodeTracker>) -> (r: Vec<MenuOption>)
    requires
        tracker matches Some(t) ==> t.wf(),
    ensures
        options_view(r@) == play_options_spec(selection@, seen_in(tracker_view(tracker), anime_url@, selection@.1.0)),
{
    let mut out: Vec<MenuOption> = Vec::new();
    let ghost s0 = options_view(out@);
    if selection.last.is_some() {
        out.push(option("Anterior episodio", OP_LAST_EPISODE, None));
    }
    let ghost s1 = options_view(out@);
    if selection.next.is_some() {
        out.push(option("Siguiente episodio", OP_NEXT_EPISODE, None));
    }
    let ghost s2 = options_view(out@);
    let n = selection.current.number;
    let seen = match tracker {
        Some(t) => t.episode_is_seen(anime_url, &n),
        None => false,
    };
    if seen {
        out.push(option("Desmarcar como visto", OP_UNWATCH, None));
    }
    let ghost s3 = options_view(out@);
    out.push(option("Ver otro anime", OP_OTHER_ANIME, None));
    out.push(option("Ver otro capitulo", OP_OTHER_EPISODE, None));
    out.push(option("Salir", OP_EXIT, Some("Cerrar el programa y el reproductor")));
    assert(options_view(out@) =~= play_options_spec(selection@, seen_in(tracker_view(tracker), anime_url@, selection@.1.0)));
    out
}

/// What a choice in the menu after a chapter leads to.
pub enum PlayChoice {
    Previous,
    Next,
    Unwatch,
    OtherTitle,
    OtherEpisode,
    Quit,
    /// The choice names no option of the menu.
    Unknown,
}

pub fn play_choice(choice: &str) -> (r: PlayChoice)
    ensures
        choice@ == OP_LAST_EPISODE@ ==> r is Previous,
        choice@ == OP_NEXT_EPISODE@ ==> r is Next,
        choice@ == OP_UNWATCH@ ==> r is Unwatch,
        choice@ == OP_OTHER_ANIME@ ==> r is OtherTitle,
        choice@ == OP_OTHER_EPISODE@ ==> r is OtherEpisode,
        choice@ == OP_EXIT@ ==> r is Quit,
        r is Unknown <==> (choice@ != OP_LAST_EPISODE@ && choice@ != OP_NEXT_EPISODE@ && choice@ != OP_UNWATCH@
            && choice@ != OP_OTHER_ANIME@ && choice@ != OP_OTHER_EPISODE@ && choice@ != OP_EXIT@),
{
    proof {
        reveal_strlit("op_last_episode");
        reveal_strlit("op_next_episode");
        reveal_strlit("op_unwatch");
        reveal_strlit("op_watch_other_anime");
        reveal_strlit("op_watch_other_episode");
        reveal_strlit("op_exit");
        assert(OP_LAST_EPISODE@[3] != OP_NEXT_EPISODE@[3]);
        assert(OP_LAST_EPISODE@.len() != OP_UNWATCH@.len());
        assert(OP_LAST_EPISODE@.len() != OP_OTHER_ANIME@.len());
        assert(OP_LAST_EPISODE@.len() != OP_OTHER_EPISODE@.len());
        assert(OP_LAST_EPISODE@.len() != OP_EXIT@.len());
        assert(OP_NEXT_EPISODE@.len() != OP_UNWATCH@.len());
        assert(OP_NEXT_EPISODE@.len() != OP_OTHER_ANIME@.len());
        assert(OP_NEXT_EPISODE@.len() != OP_OTHER_EPISODE@.len());
        assert(OP_NEXT_EPISODE@.len() != OP_EXIT@.len());
        assert(OP_UNWATCH@.len() != OP_OTHER_ANIME@.len());
        assert(OP_UNWATCH@.len() != OP_OTHER_EPISODE@.len());
        assert(OP_UNWATCH@.len() != OP_EXIT@.len());
        assert(OP_OTHER_ANIME@.len() != OP_OTHER_EPISODE@.len());
        assert(OP_OTHER_ANIME@.len() != OP_EXIT@.len());
        assert(OP_OTHER_EPISODE@.len() != OP_EXIT@.len());
    }
    let c = String::from_str(choice);
    if c == String::from_str(OP_LAST_EPISODE) {
        PlayChoice::Previous
    } else if c == String::from_str(OP_NEXT_EPISODE) {
        PlayChoice::Next
    } else if c == String::from_str(OP_UNWATCH) {
        PlayChoice::Unwatch
    } else if c == String::from_str(OP_OTHER_ANIME) {
        PlayChoice::OtherTitle
    } else if c == String::from_str(OP_OTHER_EPISODE) {
        PlayChoice::OtherEpisode
    } else if c == String::from_str(OP_EXIT) {
        PlayChoice::Quit
    } else {
        PlayChoice::Unknown
    }
}

/// `<name> | Capitulo <n>`, the heading of the menu after a chapter and
/// the player's window title.
pub fn play_title(name: &str, number: i32) -> (r: String)
    ensures
        r@ == name@ + " | "@ + chapter_label(number),
{
    let mut out = chars_of(name);
    push_all(&mut out, &chars_of(" | "));
    push_all(&mut out, &chars_of(CHAPTER_LABEL));
    push_int_text(&mut out, number);
    assert(out@ =~= name@ + " | "@ + chapter_label(number));
    string_of(&out)
}

/// Where the navigation stands.
pub enum MenuState {
    /// Asking what to search for; `retry` after a search that found
    /// nothing.
    Search { retry: bool },
    /// Choosing a chapter of a title.
    TitleSelected { anime: AnimeEntry },
    /// A chapter was chosen; its links are played and the next step asked.
    ChapterSelected { anime: AnimeEntry, selection: ChapterSelection },
    /// The session is over.
    Terminated,
}

/// The state after a search that found nothing: the same menu, asking
/// again with the other question.
pub fn on_empty_search() -> (r: MenuState)
    ensures
        r matches MenuState::Search { retry } && retry,
{
    MenuState::Search { retry: true }
}

/// The state after a choice in the search-result menu.
pub fn on_query_choice(choice: QueryChoice, retry: bool) -> (r: MenuState)
    ensures
        match choice {
            QueryChoice::Quit => r is Terminated,
            QueryChoice::Retry => r matches MenuState::Search { retry: again } && !again,
            QueryChoice::Title(e) => r matches MenuState::TitleSelected { anime } && anime@ == e@,
            QueryChoice::Unknown => r matches MenuState::Search { retry: again } && again == retry,
        },
{
    match choice {
        QueryChoice::Quit => MenuState::Terminated,
        QueryChoice::Retry => MenuState::Search { retry: false },
        QueryChoice::Title(e) => MenuState::TitleSelected { anime: e },
        QueryChoice::Unknown => MenuState::Search { retry },
    }
}

/// The state after a choice in the chapter menu.
pub fn on_chapter_choice(anime: AnimeEntry, choice: ChapterChoice) -> (r: MenuState)
    ensures
        match choice {
            ChapterChoice::Quit => r is Terminated,
            ChapterChoice::Back => r matches MenuState::Search { retry } && !retry,
            ChapterChoice::Play(s) => r matches MenuState::ChapterSelected { anime: a, selection } && a@ == anime@ && selection@ == s@,
            ChapterChoice::Unknown => r matches MenuState::TitleSelected { anime: a } && a@ == anime@,
        },
{
    match choice {
        ChapterChoice::Quit => MenuState::Terminated,
        ChapterChoice::Back => MenuState::Search { retry: false },
        ChapterChoice::Play(s) => MenuState::ChapterSelected { anime, selection: s },
        ChapterChoice::Unknown => MenuState::TitleSelected { anime },
    }
}

/// The state after a choice in the menu after a chapter: the previous or
/// next episode is selected from the title's chapters as if chosen there;
/// unmarking, or a choice that does not apply, stays on the chapter.
pub fn on_play_choice(anime: AnimeEntry, chapters: &Vec<ChapterInfo>, selection: ChapterSelection, choice: PlayChoice) -> (r: MenuState)
    ensures
        match choice {
            PlayChoice::Quit => r is Terminated,
            PlayChoice::OtherTitle => r matches MenuState::Search { retry } && !retry,
            PlayChoice::OtherEpisode => r matches MenuState::TitleSelected { anime: a } && a@ == anime@,
            PlayChoice::Previous => r matches MenuState::ChapterSelected { anime: a, selection: s } && a@ == anime@ && match selection@.0 {
                Some(p) => match selection_of(chapters_view(chapters@), p.1) {
                    Some(t) => s@ == t,
                    None => s@ == selection@,
                },
                None => s@ == selection@,
            },
            PlayChoice::Next => r matches MenuState::ChapterSelected { anime: a, selection: s } && a@ == anime@ && match selection@.2 {
                Some(p) => match selection_of(chapters_view(chapters@), p.1) {
                    Some(t) => s@ == t,
                    None => s@ == selection@,
                },
                None => s@ == selection@,
            },
            _ => r matches MenuState::ChapterSelected { anime: a, selection: s } && a@ == anime@ && s@ == selection@,
        },
{
    match choice {
        PlayChoice::Quit => MenuState::Terminated,
        PlayChoice::OtherTitle => MenuState::Search { retry: false },
        PlayChoice::OtherEpisode => MenuState::TitleSelected { anime },
        PlayChoice::Previous => {
            let moved = match selection.last() {
                Some(c) => select_chapter(chapters, c.url()),
                None => None,
            };
            match moved {
                Some(s) => MenuState::ChapterSelected { anime, selection: s },
                None => MenuState::ChapterSelected { anime, selection },
            }
        },
        PlayChoice::Next => {
            let moved = match selection.next() {
                Some(c) => select_chapter(chapters, c.url()),
                None => None,
            };
            match moved {
                Some(s) => MenuState::ChapterSelected { anime, selection: s },
                None => MenuState::ChapterSelected { anime, selection },
            }
        },
        _ => MenuState::ChapterSelected { anime, selection },
    }
}

} // verus!
