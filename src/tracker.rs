//! The watch history: which episodes of which titles have been seen, and
//! its line-oriented saved form.
use vstd::prelude::*;
use crate::decimal::{int_text, lemma_int_text_chars, lemma_parse_int_text, parse_i32, parsed_i32, push_int_text, is_digit};
use crate::text::{lemma_join_chars, chars_of, find_from, find_pattern, join_with, lemma_find_first, lemma_split_join, occurs_at, push_joined, split_from, split_pattern, string_of};

verus! {

/// Relies on std's `io::Error` only to carry a failed read or write.
#[verifier::external_type_specification]
#[verifier::external_body]
pub struct ExIoError(std::io::Error);

/// Why the watch history could not be loaded or saved.
#[derive(Debug)]
pub enum TrackerError {
    /// The conventional storage directory could not be found.
    SavePath,
    /// Creating, reading or writing the saved file failed.
    SaveFile(std::io::Error),
    /// The platform has no known storage directory.
    UnsupportedOs,
}

/// Title locators with their watched episodes, in the order they were
/// first recorded.
pub type WatchEntries = Seq<(Seq<char>, Seq<i32>)>;

/// Every title appears once and has at least one episode, none twice.
pub open spec fn well_formed(es: WatchEntries) -> bool {
    &&& forall|i: int, j: int| 0 <= i < j < es.len() ==> es[i].0 != es[j].0
    &&& forall|i: int| 0 <= i < es.len() ==> (#[trigger] es[i]).1.len() > 0 && es[i].1.no_duplicates()
}

pub open spec fn is_seen(es: WatchEntries, url: Seq<char>, ep: i32) -> bool {
    exists|i: int| 0 <= i < es.len() && (#[trigger] es[i]).0 == url && es[i].1.contains(ep)
}

/// The first entry at or after `i` for title `url`.
pub open spec fn title_from(es: WatchEntries, url: Seq<char>, i: int) -> Option<int>
    decreases es.len() - i,
{
    if i < 0 || i >= es.len() {
        None
    } else if es[i].0 == url {
        Some(i)
    } else {
        title_from(es, url, i + 1)
    }
}

/// The first position at or after `i` of `ep` in `eps`.
pub open spec fn episode_from(eps: Seq<i32>, ep: i32, i: int) -> Option<int>
    decreases eps.len() - i,
{
    if i < 0 || i >= eps.len() {
        None
    } else if eps[i] == ep {
        Some(i)
    } else {
        episode_from(eps, ep, i + 1)
    }
}

/// The history after marking `ep` of `url` as watched.
pub open spec fn with_watched(es: WatchEntries, url: Seq<char>, ep: i32) -> WatchEntries {
    if is_seen(es, url, ep) {
        es
    } else {
        match title_from(es, url, 0) {
            Some(i) => es.update(i, (url, es[i].1.push(ep))),
            None => es.push((url, seq![ep])),
        }
    }
}

/// The history after unmarking `ep` of `url`; a title left with no
/// episode is dropped.
pub open spec fn with_unwatched(es: WatchEntries, url: Seq<char>, ep: i32) -> WatchEntries {
    match title_from(es, url, 0) {
        Some(i) => match episode_from(es[i].1, ep, 0) {
            Some(k) => if es[i].1.len() == 1 {
                es.remove(i)
            } else {
                es.update(i, (url, es[i].1.remove(k)))
            },
            None => es,
        },
        None => es,
    }
}

proof fn lemma_title_from(es: WatchEntries, url: Seq<char>, i: int)
    requires
        0 <= i,
    ensures
        title_from(es, url, i) matches Some(j) ==> i <= j < es.len() && es[j].0 == url,
        title_from(es, url, i) is None ==> forall|j: int| i <= j < es.len() ==> (#[trigger] es[j]).0 != url,
    decreases es.len() - i,
{
    if i < es.len() && es[i].0 != url {
        lemma_title_from(es, url, i + 1);
    }
}

proof fn lemma_episode_from(eps: Seq<i32>, ep: i32, i: int)
    requires
        0 <= i,
    ensures
        episode_from(eps, ep, i) matches Some(j) ==> i <= j < eps.len() && eps[j] == ep,
        episode_from(eps, ep, i) is None ==> forall|j: int| i <= j < eps.len() ==> eps[j] != ep,
    decreases eps.len() - i,
{
    if i < eps.len() && eps[i] != ep {
        lemma_episode_from(eps, ep, i + 1);
    }
}

/// Marking an episode as watched makes it seen, and keeps the history
/// well formed.
pub proof fn lemma_watch_then_seen(es: WatchEntries, url: Seq<char>, ep: i32)
    requires
        well_formed(es),
    ensures
        is_seen(with_watched(es, url, ep), url, ep),
        well_formed(with_watched(es, url, ep)),
{
    lemma_title_from(es, url, 0);
    let r = with_watched(es, url, ep);
    if !is_seen(es, url, ep) {
        match title_from(es, url, 0) {
            Some(i) => {
                assert(r[i].1.contains(ep)) by {
                    assert(r[i].1[es[i].1.len() as int] == ep);
                }
                assert(r[i].1.no_duplicates()) by {
                    assert(!es[i].1.contains(ep));
                    assert forall|a: int, b: int| 0 <= a < b < r[i].1.len() implies r[i].1[a] != r[i].1[b] by {
                        if b == es[i].1.len() {
                            assert(es[i].1[a] == r[i].1[a]);
                        }
                    }
                }
                assert forall|a: int| 0 <= a < r.len() implies (#[trigger] r[a]).1.len() > 0 && r[a].1.no_duplicates() by {
                    if a != i {
                        assert(r[a] == es[a]);
                    }
                }
            },
            None => {
                let n = es.len() as int;
                assert(r[n].1[0] == ep);
                assert(r[n].1.contains(ep));
                assert(seq![ep].no_duplicates());
                assert forall|a: int| 0 <= a < r.len() implies (#[trigger] r[a]).1.len() > 0 && r[a].1.no_duplicates() by {
                    if a < n {
                        assert(r[a] == es[a]);
                    }
                }
            },
        }
    }
}

/// Marking an episode as watched a second time changes nothing.
pub proof fn lemma_watch_idempotent(es: WatchEntries, url: Seq<char>, ep: i32)
    requires
        well_formed(es),
    ensures
        with_watched(with_watched(es, url, ep), url, ep) == with_watched(es, url, ep),
{
    lemma_watch_then_seen(es, url, ep);
}

/// Unmarking an episode leaves it unseen, and keeps the history well
/// formed.
pub proof fn lemma_unwatch_then_unseen(es: WatchEntries, url: Seq<char>, ep: i32)
    requires
        well_formed(es),
    ensures
        !is_seen(with_unwatched(es, url, ep), url, ep),
        well_formed(with_unwatched(es, url, ep)),
{
    lemma_title_from(es, url, 0);
    let r = with_unwatched(es, url, ep);
    match title_from(es, url, 0) {
        Some(i) => {
            lemma_episode_from(es[i].1, ep, 0);
            match episode_from(es[i].1, ep, 0) {
                Some(k) => {
                    let eps = es[i].1;
                    if eps.len() == 1 {
                        assert forall|a: int| 0 <= a < r.len() implies (#[trigger] r[a]).0 != url by {
                            if a < i {
                                assert(r[a] == es[a]);
                            } else {
                                assert(r[a] == es[a + 1]);
                            }
                        }
                    } else {
                        let rest = eps.remove(k);
                        assert forall|m: int| 0 <= m < rest.len() implies rest[m] != ep by {
                            if m < k {
                                assert(rest[m] == eps[m]);
                            } else {
                                assert(rest[m] == eps[m + 1]);
                            }
                        }
                        assert(rest.no_duplicates()) by {
                            assert forall|a: int, b: int| 0 <= a < b < rest.len() implies rest[a] != rest[b] by {
                                let a2 = if a < k { a } else { a + 1 };
                                let b2 = if b < k { b } else { b + 1 };
                                assert(rest[a] == eps[a2]);
                                assert(rest[b] == eps[b2]);
                            }
                        }
                        assert forall|a: int| 0 <= a < r.len() && (#[trigger] r[a]).0 == url implies !r[a].1.contains(ep) by {
                            if a != i {
                                assert(r[a] == es[a]);
                            }
                        }
                        assert forall|a: int| 0 <= a < r.len() implies (#[trigger] r[a]).1.len() > 0 && r[a].1.no_duplicates() by {
                            if a != i {
                                assert(r[a] == es[a]);
                            }
                        }
                    }
                },
                None => {
                    assert forall|a: int| 0 <= a < es.len() && (#[trigger] es[a]).0 == url implies !es[a].1.contains(ep) by {
                        assert(a == i);
                    }
                },
            }
        },
        None => {},
    }
}

/// The watch history held in memory.
pub struct EpisodeTracker {
    episodes: Vec<(String, Vec<i32>)>,
}

impl View for EpisodeTracker {
    type V = WatchEntries;

    closed spec fn view(&self) -> WatchEntries {
        self.episodes@.map_values(|e: (String, Vec<i32>)| (e.0@, e.1@))
    }
}

impl EpisodeTracker {
    pub open spec fn wf(&self) -> bool {
        well_formed(self@)
    }

    /// An empty history.
    pub fn empty() -> (r: EpisodeTracker)
        ensures
            r@ == Seq::<(Seq<char>, Seq<i32>)>::empty(),
            r.wf(),
    {
        let r = EpisodeTracker { episodes: Vec::new() };
        assert(r@ =~= Seq::<(Seq<char>, Seq<i32>)>::empty());
        r
    }

    /// Where the entry for `url` stands, if there is one.
    fn title_index(&self, url: &String) -> (r: Option<usize>)
        ensures
            r matches Some(i) ==> title_from(self@, url@, 0) == Some(i as int),
            r is None ==> title_from(self@, url@, 0) is None,
    {
        let mut i: usize = 0;
        while i < self.episodes.len()
            invariant
                i <= self@.len(),
                self@.len() == self.episodes@.len(),
                title_from(self@, url@, 0) == title_from(self@, url@, i as int),
            decreases self@.len() - i,
        {
            if self.episodes[i].0 == *url {
                assert(self@[i as int].0 == self.episodes@[i as int].0@);
                return Some(i);
            }
            assert(self@[i as int].0 == self.episodes@[i as int].0@);
            i = i + 1;
        }
        None
    }

    /// Whether `episode` of the title at `url` has been watched.
    pub fn episode_is_seen(&self, url: &str, episode: &i32) -> (r: bool)
        requires
            self.wf(),
        ensures
            r == is_seen(self@, url@, *episode),
    {
        let key = String::from_str(url);
        proof {
            lemma_title_from(self@, url@, 0);
        }
        match self.title_index(&key) {
            Some(i) => {
                let eps = &self.episodes[i].1;
                assert(self@[i as int].1 == eps@);
                let found = position_of(eps, *episode);
                proof {
                    lemma_episode_from(eps@, *episode, 0);
                    if is_seen(self@, url@, *episode) {
                        let a = choose|a: int| 0 <= a < self@.len() && (#[trigger] self@[a]).0 == url@ && self@[a].1.contains(*episode);
                        assert(a == i);
                    }
                }
                found.is_some()
            },
            None => false,
        }
    }

    /// Marks `episode` of `url` as watched. Returns whether the history
    /// changed, that is whether the saved form must be written again.
    pub fn watch_episode(&mut self, url: &str, episode: i32) -> (changed: bool)
        requires
            old(self).wf(),
        ensures
            final(self)@ == with_watched(old(self)@, url@, episode),
            final(self).wf(),
            changed == !is_seen(old(self)@, url@, episode),
    {
        proof {
            lemma_watch_then_seen(self@, url@, episode);
            lemma_title_from(self@, url@, 0);
        }
        if self.episode_is_seen(url, &episode) {
            return false;
        }
        let key = String::from_str(url);
        let ghost before = self@;
        match self.title_index(&key) {
            Some(i) => {
                let (k, mut eps) = self.episodes.remove(i);
                eps.push(episode);
                self.episodes.insert(i, (k, eps));
                assert(self@ =~= before.update(i as int, (url@, before[i as int].1.push(episode))));
            },
            None => {
                let mut eps: Vec<i32> = Vec::new();
                eps.push(episode);
                assert(eps@ =~= seq![episode]);
                self.episodes.push((key, eps));
                assert(self@ =~= before.push((url@, seq![episode])));
            },
        }
        true
    }

    /// Unmarks `episode` of `url`. Returns whether the history changed.
    pub fn unwatch_episode(&mut self, url: &str, episode: i32) -> (changed: bool)
        requires
            old(self).wf(),
        ensures
            final(self)@ == with_unwatched(old(self)@, url@, episode),
            final(self).wf(),
            changed == is_seen(old(self)@, url@, episode),
    {
        proof {
            lemma_unwatch_then_unseen(self@, url@, episode);
            lemma_title_from(self@, url@, 0);
        }
        let ghost before = self@;
        let key = String::from_str(url);
        match self.title_index(&key) {
            Some(i) => {
                let ghost eps_view = before[i as int].1;
                assert(self.episodes@[i as int].1@ == eps_view);
                let found = position_of(&self.episodes[i].1, episode);
                proof {
                    lemma_episode_from(eps_view, episode, 0);
                }
                match found {
                    Some(k) => {
                        let (t, mut eps) = self.episodes.remove(i);
                        if eps.len() == 1 {
                            assert(self@ =~= before.remove(i as int));
                        } else {
                            eps.remove(k);
                            self.episodes.insert(i, (t, eps));
                            assert(self@ =~= before.update(i as int, (url@, eps_view.remove(k as int))));
                        }
                        proof {
                            assert(before[i as int].1.contains(episode));
                        }
                        true
                    },
                    None => {
                        proof {
                            if is_seen(before, url@, episode) {
                                let a = choose|a: int| 0 <= a < before.len() && (#[trigger] before[a]).0 == url@ && before[a].1.contains(episode);
                                assert(a == i);
                            }
                        }
                        false
                    },
                }
            },
            None => false,
        }
    }
}

/// The first position of `v` in `s`.
fn position_of(s: &Vec<i32>, v: i32) -> (r: Option<usize>)
    ensures
        r matches Some(i) ==> episode_from(s@, v, 0) == Some(i as int),
        r is None ==> episode_from(s@, v, 0) is None,
        r is Some <==> s@.contains(v),
{
    let mut i: usize = 0;
    proof {
        lemma_episode_from(s@, v, 0);
    }
    while i < s.len()
        invariant
            i <= s@.len(),
            episode_from(s@, v, 0) == episode_from(s@, v, i as int),
            forall|j: int| 0 <= j < i ==> s@[j] != v,
        decreases s@.len() - i,
    {
        if s[i] == v {
            return Some(i);
        }
        i = i + 1;
    }
    None
}

/// What stands between a title and its episodes on a saved line.
pub open spec fn title_separator() -> Seq<char> {
    seq![' ', '<', '>', ' ']
}

/// The episodes a list of tokens names: each token read as an `i32`,
/// tokens that do not read skipped, repeats dropped.
pub open spec fn episodes_of(tokens: Seq<Seq<char>>) -> Seq<i32>
    decreases tokens.len(),
{
    if tokens.len() == 0 {
        Seq::empty()
    } else {
        let acc = episodes_of(tokens.drop_last());
        match parsed_i32(tokens.last()) {
            Some(v) => if acc.contains(v) {
                acc
            } else {
                acc.push(v)
            },
            None => acc,
        }
    }
}

/// A saved line read back: the title before the first separator, and the
/// comma-separated episodes after it.
pub open spec fn parse_line(line: Seq<char>) -> Option<(Seq<char>, Seq<i32>)> {
    match find_from(line, title_separator(), 0) {
        Some(j) => Some((line.take(j), episodes_of(split_from(line, seq![','], j + 4)))),
        None => None,
    }
}

/// Records `eps` for title `k`, replacing an earlier record of it.
pub open spec fn upsert(es: WatchEntries, k: Seq<char>, eps: Seq<i32>) -> WatchEntries {
    match title_from(es, k, 0) {
        Some(i) => es.update(i, (k, eps)),
        None => es.push((k, eps)),
    }
}

/// The history that saved lines describe; lines that do not read, or
/// name no episode, are skipped.
pub open spec fn entries_of(lines: Seq<Seq<char>>) -> WatchEntries
    decreases lines.len(),
{
    if lines.len() == 0 {
        Seq::empty()
    } else {
        let acc = entries_of(lines.drop_last());
        match parse_line(lines.last()) {
            Some(p) => if p.1.len() > 0 {
                upsert(acc, p.0, p.1)
            } else {
                acc
            },
            None => acc,
        }
    }
}

/// The history that a saved text describes.
pub open spec fn parse_state(text: Seq<char>) -> WatchEntries {
    entries_of(split_from(text, seq!['\n'], 0))
}

pub open spec fn episodes_text(eps: Seq<i32>) -> Seq<char> {
    join_with(eps.map_values(|e: i32| int_text(e as int)), seq![','])
}

pub open spec fn line_text(e: (Seq<char>, Seq<i32>)) -> Seq<char> {
    e.0 + title_separator() + episodes_text(e.1)
}

/// The saved text of a history: one line per title.
pub open spec fn render_state(es: WatchEntries) -> Seq<char> {
    join_with(es.map_values(|e: (Seq<char>, Seq<i32>)| line_text(e)), seq!['\n'])
}

/// A title that can be saved and read back: no line break and no `<`.
pub open spec fn title_ok(k: Seq<char>) -> bool {
    forall|i: int| 0 <= i < k.len() ==> k[i] != '\n' && k[i] != '<'
}

proof fn lemma_episodes_of_unique(tokens: Seq<Seq<char>>)
    ensures
        episodes_of(tokens).no_duplicates(),
    decreases tokens.len(),
{
    if tokens.len() > 0 {
        lemma_episodes_of_unique(tokens.drop_last());
        let acc = episodes_of(tokens.drop_last());
        match parsed_i32(tokens.last()) {
            Some(v) => {
                if !acc.contains(v) {
                    let r = acc.push(v);
                    assert forall|a: int, b: int| 0 <= a < b < r.len() implies r[a] != r[b] by {
                        if b == acc.len() {
                            assert(r[a] == acc[a]);
                        }
                    }
                }
            },
            None => {},
        }
    }
}

proof fn lemma_upsert_wf(es: WatchEntries, k: Seq<char>, eps: Seq<i32>)
    requires
        well_formed(es),
        eps.len() > 0,
        eps.no_duplicates(),
    ensures
        well_formed(upsert(es, k, eps)),
{
    lemma_title_from(es, k, 0);
    let r = upsert(es, k, eps);
    assert forall|a: int| 0 <= a < r.len() implies (#[trigger] r[a]).1.len() > 0 && r[a].1.no_duplicates() by {
        if a < es.len() && r[a] != es[a] {
            assert(r[a].1 == eps);
        }
    }
}

proof fn lemma_entries_of_wf(lines: Seq<Seq<char>>)
    ensures
        well_formed(entries_of(lines)),
    decreases lines.len(),
{
    if lines.len() > 0 {
        lemma_entries_of_wf(lines.drop_last());
        let acc = entries_of(lines.drop_last());
        match parse_line(lines.last()) {
            Some(p) => {
                let j = find_from(lines.last(), title_separator(), 0)->Some_0;
                lemma_episodes_of_unique(split_from(lines.last(), seq![','], j + 4));
                if p.1.len() > 0 {
                    lemma_upsert_wf(acc, p.0, p.1);
                }
            },
            None => {},
        }
    }
}

/// The episodes named by `tokens`, as `episodes_of` gives them.
fn episodes_exec(tokens: &Vec<Vec<char>>) -> (r: Vec<i32>)
    ensures
        r@ == episodes_of(tokens@.map_values(|p: Vec<char>| p@)),
{
    let ghost views = tokens@.map_values(|p: Vec<char>| p@);
    let mut out: Vec<i32> = Vec::new();
    let mut i: usize = 0;
    while i < tokens.len()
        invariant
            i <= tokens@.len(),
            views == tokens@.map_values(|p: Vec<char>| p@),
            out@ == episodes_of(views.take(i as int)),
        decreases tokens@.len() - i,
    {
        proof {
            assert(views.take(i + 1).drop_last() =~= views.take(i as int));
            assert(views.take(i + 1).last() == tokens@[i as int]@);
        }
        match parse_i32(&tokens[i]) {
            Some(v) => {
                if position_of(&out, v).is_none() {
                    out.push(v);
                }
            },
            None => {},
        }
        i = i + 1;
    }
    proof {
        assert(views.take(i as int) =~= views);
    }
    out
}

/// A saved line read back, as `parse_line` gives it.
fn parse_line_exec(line: &Vec<char>) -> (r: Option<(String, Vec<i32>)>)
    ensures
        r matches Some(p) ==> parse_line(line@) == Some((p.0@, p.1@)),
        r is None ==> parse_line(line@) is None,
{
    let mut sep: Vec<char> = Vec::new();
    sep.push(' ');
    sep.push('<');
    sep.push('>');
    sep.push(' ');
    assert(sep@ =~= title_separator());
    match find_pattern(line, &sep, 0) {
        Some(j) => {
            proof {
                crate::text::lemma_find_from_range(line@, sep@, 0);
            }
            let mut key: Vec<char> = Vec::new();
            let mut k: usize = 0;
            while k < j
                invariant
                    k <= j <= line@.len(),
                    key@ == line@.take(k as int),
                decreases j - k,
            {
                key.push(line[k]);
                assert(line@.take(k + 1) =~= line@.take(k as int).push(line@[k as int]));
                k = k + 1;
            }
            let mut comma: Vec<char> = Vec::new();
            comma.push(',');
            assert(comma@ =~= seq![',']);
            let n = line.len();
            assert(j + 4 <= n);
            let tokens = split_pattern(line, &comma, j + 4);
            let eps = episodes_exec(&tokens);
            Some((string_of(&key), eps))
        },
        None => None,
    }
}

/// The characters of `line_text` for one entry.
fn line_chars(key: &String, eps: &Vec<i32>) -> (r: Vec<char>)
    ensures
        r@ == line_text((key@, eps@)),
{
    let mut out = chars_of(key.as_str());
    out.push(' ');
    out.push('<');
    out.push('>');
    out.push(' ');
    let mut tokens: Vec<Vec<char>> = Vec::new();
    let mut i: usize = 0;
    while i < eps.len()
        invariant
            i <= eps@.len(),
            tokens@.map_values(|p: Vec<char>| p@) == eps@.take(i as int).map_values(|e: i32| int_text(e as int)),
        decreases eps@.len() - i,
    {
        let mut t: Vec<char> = Vec::new();
        push_int_text(&mut t, eps[i]);
        let ghost before = tokens@.map_values(|p: Vec<char>| p@);
        tokens.push(t);
        proof {
            assert(tokens@.map_values(|p: Vec<char>| p@) =~= before.push(t@));
            assert(eps@.take(i + 1).map_values(|e: i32| int_text(e as int)) =~= eps@.take(i as int).map_values(|e: i32| int_text(e as int)).push(int_text(eps@[i as int] as int)));
        }
        i = i + 1;
    }
    proof {
        assert(eps@.take(i as int) =~= eps@);
    }
    let mut comma: Vec<char> = Vec::new();
    comma.push(',');
    assert(comma@ =~= seq![',']);
    let ghost head = out@;
    push_joined(&mut out, &tokens, &comma);
    assert(head =~= key@ + title_separator());
    assert(out@ =~= line_text((key@, eps@)));
    out
}

impl EpisodeTracker {
    /// Records `eps` for `key`, replacing an earlier record of it.
    fn upsert(&mut self, key: String, eps: Vec<i32>)
        requires
            old(self).wf(),
            eps@.len() > 0,
            eps@.no_duplicates(),
        ensures
            final(self)@ == upsert(old(self)@, key@, eps@),
            final(self).wf(),
    {
        proof {
            lemma_title_from(self@, key@, 0);
            lemma_upsert_wf(self@, key@, eps@);
        }
        let ghost before = self@;
        let ghost kv = key@;
        let ghost ev = eps@;
        match self.title_index(&key) {
            Some(i) => {
                self.episodes.remove(i);
                self.episodes.insert(i, (key, eps));
                assert(self@ =~= before.update(i as int, (kv, ev)));
            },
            None => {
                self.episodes.push((key, eps));
                assert(self@ =~= before.push((kv, ev)));
            },
        }
    }

    /// The history that a saved text describes. Each line holds a title,
    /// ` <> ` and comma-separated episode numbers; lines that do not have
    /// this shape, episode tokens that are not integers, and lines that
    /// name no episode are skipped.
    pub fn new(saved: &str) -> (r: EpisodeTracker)
        ensures
            r@ == parse_state(saved@),
            r.wf(),
    {
        let text = chars_of(saved);
        let mut nl: Vec<char> = Vec::new();
        nl.push('\n');
        assert(nl@ =~= seq!['\n']);
        let lines = split_pattern(&text, &nl, 0);
        let ghost views = lines@.map_values(|p: Vec<char>| p@);
        let mut t = EpisodeTracker::empty();
        let mut i: usize = 0;
        while i < lines.len()
            invariant
                i <= lines@.len(),
                views == lines@.map_values(|p: Vec<char>| p@),
                t@ == entries_of(views.take(i as int)),
                t.wf(),
            decreases lines@.len() - i,
        {
            proof {
                assert(views.take(i + 1).drop_last() =~= views.take(i as int));
                assert(views.take(i + 1).last() == lines@[i as int]@);
                lemma_entries_of_wf(views.take(i + 1));
            }
            match parse_line_exec(&lines[i]) {
                Some((key, eps)) => {
                    if eps.len() > 0 {
                        proof {
                            let line = lines@[i as int]@;
                            let j = find_from(line, title_separator(), 0)->Some_0;
                            lemma_episodes_of_unique(split_from(line, seq![','], j + 4));
                        }
                        t.upsert(key, eps);
                    }
                },
                None => {},
            }
            i = i + 1;
        }
        proof {
            assert(views.take(i as int) =~= views);
        }
        t
    }

    /// The saved text of the history: one line per title, in the form that
    /// `new` reads.
    pub fn save_state(&self) -> (r: String)
        ensures
            r@ == render_state(self@),
    {
        let mut lines: Vec<Vec<char>> = Vec::new();
        let mut i: usize = 0;
        while i < self.episodes.len()
            invariant
                i <= self@.len(),
                self@.len() == self.episodes@.len(),
                lines@.map_values(|p: Vec<char>| p@) == self@.take(i as int).map_values(|e: (Seq<char>, Seq<i32>)| line_text(e)),
            decreases self@.len() - i,
        {
            let l = line_chars(&self.episodes[i].0, &self.episodes[i].1);
            let ghost before = lines@.map_values(|p: Vec<char>| p@);
            lines.push(l);
            proof {
                assert(lines@.map_values(|p: Vec<char>| p@) =~= before.push(l@));
                assert(self@[i as int] == (self.episodes@[i as int].0@, self.episodes@[i as int].1@));
                assert(self@.take(i + 1).map_values(|e: (Seq<char>, Seq<i32>)| line_text(e)) =~= self@.take(i as int).map_values(|e: (Seq<char>, Seq<i32>)| line_text(e)).push(line_text(self@[i as int])));
            }
            i = i + 1;
        }
        proof {
            assert(self@.take(i as int) =~= self@);
        }
        let mut nl: Vec<char> = Vec::new();
        nl.push('\n');
        assert(nl@ =~= seq!['\n']);
        let mut out: Vec<char> = Vec::new();
        push_joined(&mut out, &lines, &nl);
        assert(out@ =~= render_state(self@));
        string_of(&out)
    }
}

proof fn lemma_episodes_round_trip(eps: Seq<i32>)
    requires
        eps.no_duplicates(),
    ensures
        episodes_of(eps.map_values(|e: i32| int_text(e as int))) == eps,
    decreases eps.len(),
{
    let tokens = eps.map_values(|e: i32| int_text(e as int));
    if eps.len() > 0 {
        let init = eps.drop_last();
        assert(init.no_duplicates());
        lemma_episodes_round_trip(init);
        assert(tokens.drop_last() =~= init.map_values(|e: i32| int_text(e as int)));
        lemma_parse_int_text(eps.last());
        assert(!init.contains(eps.last()));
        assert(init.push(eps.last()) =~= eps);
    } else {
        assert(tokens.len() == 0);
        assert(eps =~= Seq::<i32>::empty());
    }
}

proof fn lemma_parse_line_round_trip(e: (Seq<char>, Seq<i32>))
    requires
        title_ok(e.0),
        e.1.len() > 0,
        e.1.no_duplicates(),
    ensures
        parse_line(line_text(e)) == Some(e),
{
    let k = e.0;
    let sep = title_separator();
    let tokens = e.1.map_values(|v: i32| int_text(v as int));
    let line = line_text(e);
    let j = k.len() as int;
    assert(line.subrange(j, j + 4) =~= sep);
    assert forall|m: int| 0 <= m < j implies !occurs_at(line, sep, m) by {
        if occurs_at(line, sep, m) {
            assert(line.subrange(m, m + 4)[1] == line[m + 1]);
            if m + 1 < j {
                assert(line[m + 1] == k[m + 1]);
            }
        }
    }
    lemma_find_first(line, sep, 0, j);
    assert(line.take(j) =~= k);
    assert forall|i: int, c: int| 0 <= i < tokens.len() && 0 <= c < tokens[i].len() implies #[trigger] tokens[i][c] != ',' by {
        lemma_int_text_chars(e.1[i] as int);
        assert(tokens[i] == int_text(e.1[i] as int));
        assert(is_digit(tokens[i][c]) || tokens[i][c] == '-');
    }
    lemma_split_join(k + sep, tokens, ',');
    assert(line =~= (k + sep) + join_with(tokens, seq![',']));
    lemma_episodes_round_trip(e.1);
}

proof fn lemma_entries_round_trip(es: WatchEntries)
    requires
        well_formed(es),
        forall|i: int| 0 <= i < es.len() ==> title_ok(#[trigger] es[i].0),
    ensures
        entries_of(es.map_values(|e: (Seq<char>, Seq<i32>)| line_text(e))) == es,
    decreases es.len(),
{
    let lines = es.map_values(|e: (Seq<char>, Seq<i32>)| line_text(e));
    if es.len() > 0 {
        let init = es.drop_last();
        assert forall|i: int| 0 <= i < init.len() implies title_ok(#[trigger] init[i].0) by {
            assert(init[i] == es[i]);
        }
        assert forall|i: int| 0 <= i < init.len() implies (#[trigger] init[i]).1.len() > 0 && init[i].1.no_duplicates() by {
            assert(init[i] == es[i]);
        }
        lemma_entries_round_trip(init);
        assert(lines.drop_last() =~= init.map_values(|e: (Seq<char>, Seq<i32>)| line_text(e)));
        let last = es.last();
        assert(title_ok(es[es.len() - 1].0));
        lemma_parse_line_round_trip(last);
        lemma_title_from(init, last.0, 0);
        assert forall|i: int| 0 <= i < init.len() implies (#[trigger] init[i]).0 != last.0 by {
            assert(init[i] == es[i]);
        }
        assert(init.push(last) =~= es);
    } else {
        assert(es =~= Seq::<(Seq<char>, Seq<i32>)>::empty());
    }
}

/// Saving a well-formed history whose titles hold no line break and no `<`,
/// then reading the saved text back, gives the same history.
pub proof fn lemma_state_round_trip(es: WatchEntries)
    requires
        well_formed(es),
        forall|i: int| 0 <= i < es.len() ==> title_ok(#[trigger] es[i].0),
    ensures
        parse_state(render_state(es)) == es,
{
    let lines = es.map_values(|e: (Seq<char>, Seq<i32>)| line_text(e));
    lemma_entries_round_trip(es);
    if es.len() == 0 {
        let t = render_state(es);
        assert(t.len() == 0);
        assert(split_from(t, seq!['\n'], 0) == seq![t.subrange(0, 0)]);
        let ls = split_from(t, seq!['\n'], 0);
        assert(ls.drop_last() =~= Seq::<Seq<char>>::empty());
        assert(find_from(ls.last(), title_separator(), 0) is None);
        assert(parse_line(ls.last()) is None);
        assert(entries_of(ls.drop_last()) == Seq::<(Seq<char>, Seq<i32>)>::empty());
        assert(entries_of(ls) == Seq::<(Seq<char>, Seq<i32>)>::empty());
        assert(es =~= Seq::<(Seq<char>, Seq<i32>)>::empty());
    } else {
        assert forall|i: int, c: int| 0 <= i < lines.len() && 0 <= c < lines[i].len() implies #[trigger] lines[i][c] != '\n' by {
            let e = es[i];
            assert(title_ok(es[i].0));
            let tokens = e.1.map_values(|v: i32| int_text(v as int));
            assert forall|a: int, b: int| 0 <= a < tokens.len() && 0 <= b < tokens[a].len() implies #[trigger] tokens[a][b] != '\n' by {
                lemma_int_text_chars(e.1[a] as int);
                assert(tokens[a] == int_text(e.1[a] as int));
                assert(is_digit(tokens[a][b]) || tokens[a][b] == '-');
            }
            lemma_join_chars(tokens, seq![','], |ch: char| ch != '\n');
            let l = lines[i];
            assert(l == e.0 + title_separator() + episodes_text(e.1));
            let n0 = e.0.len() as int;
            if c < n0 {
                assert(l[c] == e.0[c]);
            } else if c < n0 + 4 {
                assert(l[c] == title_separator()[c - n0]);
            } else {
                assert(l[c] == episodes_text(e.1)[c - n0 - 4]);
            }
        }
        lemma_split_join(Seq::empty(), lines, '\n');
        assert(Seq::<char>::empty() + join_with(lines, seq!['\n']) =~= render_state(es));
        assert(split_from(render_state(es), seq!['\n'], 0) == lines);
        assert(entries_of(lines) == es);
    }
}

/// The name of the saved file inside its directory.
pub const SAVE_FILE_NAME: &'static str = ".quanires.watched";

/// The directory that holds the saved file on platform `os`: the
/// documents directory on Windows, the home directory on Linux.
pub fn save_dir<P>(os: &str, documents: Option<P>, home: Option<P>) -> (r: Result<P, TrackerError>)
    ensures
        os@ == "windows"@ ==> match documents {
            Some(d) => r matches Ok(p) && p == d,
            None => r matches Err(TrackerError::SavePath),
        },
        os@ == "linux"@ ==> match home {
            Some(h) => r matches Ok(p) && p == h,
            None => r matches Err(TrackerError::SavePath),
        },
        os@ != "windows"@ && os@ != "linux"@ ==> r matches Err(TrackerError::UnsupportedOs),
{
    proof {
        reveal_strlit("windows");
        reveal_strlit("linux");
        assert("windows"@.len() != "linux"@.len());
    }
    let name = String::from_str(os);
    let dir = if name == String::from_str("windows") {
        documents
    } else if name == String::from_str("linux") {
        home
    } else {
        return Err(TrackerError::UnsupportedOs);
    };
    match dir {
        Some(d) => Ok(d),
        None => Err(TrackerError::SavePath),
    }
}

} // verus!
