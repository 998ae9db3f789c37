//! Decisions around the external player: its arguments, whether a run
//! counts as played, and which candidate link to try next.
use vstd::prelude::*;
use crate::menus::chapter_label;
use crate::decimal::push_int_text;
use crate::text::{chars_of, push_all, string_of};

verus! {

/// The double quote that encloses the window title.
pub const QUOTE: char = '\u{22}';

pub const PLAYER_PROGRAM: &'static str = "mpv";

/// The exit code a run stopped by a kill reports; it counts as played.
pub const KILLED_EXIT_CODE: i32 = -9;

/// Whether a player run counts as played: it succeeded, or it was
/// stopped by a kill.
pub fn run_succeeded(success: bool, code: Option<i32>) -> (r: bool)
    ensures
        r == (success || code == Some(KILLED_EXIT_CODE)),
{
    success || match code {
        Some(c) => c == KILLED_EXIT_CODE,
        None => false,
    }
}

/// The player's arguments for one candidate link: its window title, no
/// terminal output, and the link.
pub fn player_args(title: &str, chapter: i32, url: &str) -> (r: Vec<String>)
    ensures
        r@.len() == 3,
        r@[0]@ == "--title="@ + seq![QUOTE] + title@ + " | "@ + chapter_label(chapter) + seq![QUOTE],
        r@[1]@ == "--no-terminal"@,
        r@[2]@ == url@,
{
    let mut t = chars_of("--title=");
    t.push(QUOTE);
    push_all(&mut t, &chars_of(title));
    push_all(&mut t, &chars_of(" | "));
    push_all(&mut t, &chars_of(crate::menus::CHAPTER_LABEL));
    push_int_text(&mut t, chapter);
    t.push(QUOTE);
    assert(t@ =~= "--title="@ + seq![QUOTE] + title@ + " | "@ + chapter_label(chapter) + seq![QUOTE]);
    let mut r: Vec<String> = Vec::new();
    r.push(string_of(&t));
    r.push(String::from_str("--no-terminal"));
    r.push(String::from_str(url));
    r
}

/// Candidate links tried one after another until one plays.
pub struct PlaybackRun {
    urls: Vec<String>,
    tried: usize,
    played: bool,
}

impl PlaybackRun {
    pub closed spec fn candidates(&self) -> Seq<Seq<char>> {
        self.urls.deep_view()
    }

    /// How many candidates have been tried.
    pub closed spec fn tried_count(&self) -> int {
        self.tried as int
    }

    pub closed spec fn has_played(&self) -> bool {
        self.played
    }

    pub closed spec fn wf(&self) -> bool {
        self.tried <= self.urls@.len()
    }

    pub fn new(urls: Vec<String>) -> (r: PlaybackRun)
        ensures
            r.candidates() == urls.deep_view(),
            r.tried_count() == 0,
            !r.has_played(),
            r.wf(),
    {
        PlaybackRun { urls, tried: 0, played: false }
    }

    /// The next link to try: none once one has played or all were tried.
    pub fn next_url(&self) -> (r: Option<String>)
        requires
            self.wf(),
        ensures
            match r {
                Some(u) => !self.has_played() && self.tried_count() < self.candidates().len()
                    && u@ == self.candidates()[self.tried_count()],
                None => self.has_played() || self.tried_count() == self.candidates().len(),
            },
    {
        if self.played || self.tried >= self.urls.len() {
            None
        } else {
            let u = self.urls[self.tried].clone();
            assert(self.urls.deep_view()[self.tried as int] == self.urls@[self.tried as int]@);
            Some(u)
        }
    }

    /// Records how the run of the link `next_url` gave went.
    pub fn report(&mut self, played: bool)
        requires
            old(self).wf(),
            !old(self).has_played(),
            old(self).tried_count() < old(self).candidates().len(),
        ensures
            final(self).wf(),
            final(self).candidates() == old(self).candidates(),
            final(self).tried_count() == old(self).tried_count() + 1,
            final(self).has_played() == played,
    {
        let n = self.urls.len();
        assert(self.tried < n);
        self.tried = self.tried + 1;
        self.played = played;
    }

    /// Whether some link played.
    pub fn played(&self) -> (r: bool)
        ensures
            r == self.has_played(),
    {
        self.played
    }
}

} // verus!
