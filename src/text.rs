//! Searching, splitting and joining character sequences.
use vstd::prelude::*;

verus! {

/// `pat` stands in `s` starting at index `i`.
pub open spec fn occurs_at(s: Seq<char>, pat: Seq<char>, i: int) -> bool {
    0 <= i && i + pat.len() <= s.len() && s.subrange(i, i + pat.len()) == pat
}

/// The first index at or after `i` where `pat` occurs in `s`.
pub open spec fn find_from(s: Seq<char>, pat: Seq<char>, i: int) -> Option<int>
    decreases s.len() - i,
{
    if i < 0 || i >= s.len() || i + pat.len() > s.len() {
        None
    } else if occurs_at(s, pat, i) {
        Some(i)
    } else {
        find_from(s, pat, i + 1)
    }
}

/// The pieces of `s` from index `i` on, cut at each occurrence of `pat`.
pub open spec fn split_from(s: Seq<char>, pat: Seq<char>, i: int) -> Seq<Seq<char>>
    decreases s.len() - i,
{
    match find_from(s, pat, i) {
        Some(j) => if pat.len() > 0 && i <= j && j + pat.len() <= s.len() {
            seq![s.subrange(i, j)] + split_from(s, pat, j + pat.len())
        } else {
            seq![s.subrange(i, s.len() as int)]
        },
        None => seq![s.subrange(i, s.len() as int)],
    }
}

/// The pieces joined with `sep` between each two.
pub open spec fn join_with(parts: Seq<Seq<char>>, sep: Seq<char>) -> Seq<char>
    decreases parts.len(),
{
    if parts.len() == 0 {
        Seq::empty()
    } else if parts.len() == 1 {
        parts[0]
    } else {
        parts[0] + sep + join_with(parts.skip(1), sep)
    }
}

pub proof fn lemma_find_from_range(s: Seq<char>, pat: Seq<char>, i: int)
    ensures
        find_from(s, pat, i) matches Some(j) ==> i <= j && occurs_at(s, pat, j),
    decreases s.len() - i,
{
    if !(i < 0 || i >= s.len() || i + pat.len() > s.len()) && !occurs_at(s, pat, i) {
        lemma_find_from_range(s, pat, i + 1);
    }
}

/// Where `pat` first occurs at `j`, the search from `i` finds `j`.
pub proof fn lemma_find_first(s: Seq<char>, pat: Seq<char>, i: int, j: int)
    requires
        0 <= i <= j,
        pat.len() > 0,
        occurs_at(s, pat, j),
        forall|k: int| i <= k < j ==> !occurs_at(s, pat, k),
    ensures
        find_from(s, pat, i) == Some(j),
    decreases j - i,
{
    if i < j {
        lemma_find_first(s, pat, i + 1, j);
    }
}

/// Where `pat` does not occur from `i` on, the search finds nothing.
pub proof fn lemma_find_none(s: Seq<char>, pat: Seq<char>, i: int)
    requires
        0 <= i,
        forall|k: int| i <= k ==> !occurs_at(s, pat, k),
    ensures
        find_from(s, pat, i) is None,
    decreases s.len() - i,
{
    if i < s.len() && i + pat.len() <= s.len() {
        lemma_find_none(s, pat, i + 1);
    }
}

pub proof fn lemma_join_push(parts: Seq<Seq<char>>, sep: Seq<char>)
    requires
        parts.len() >= 2,
    ensures
        join_with(parts, sep) == join_with(parts.drop_last(), sep) + sep + parts.last(),
    decreases parts.len(),
{
    if parts.len() > 2 {
        lemma_join_push(parts.skip(1), sep);
        assert(parts.drop_last().skip(1) =~= parts.skip(1).drop_last());
        assert(parts.drop_last()[0] == parts[0]);
        assert(join_with(parts.drop_last(), sep) == parts[0] + sep + join_with(parts.drop_last().skip(1), sep));
        assert(parts.skip(1).last() == parts.last());
        assert(join_with(parts, sep) =~= join_with(parts.drop_last(), sep) + sep + parts.last());
    } else {
        assert(parts.skip(1) =~= seq![parts[1]]);
        assert(join_with(parts.skip(1), sep) == parts[1]);
        assert(parts.drop_last() =~= seq![parts[0]]);
        assert(join_with(parts.drop_last(), sep) == parts[0]);
    }
}

/// Splitting at a character that none of the pieces holds undoes joining
/// with it; `pre` is text before the joined pieces.
pub proof fn lemma_split_join(pre: Seq<char>, parts: Seq<Seq<char>>, c: char)
    requires
        parts.len() >= 1,
        forall|i: int, k: int| 0 <= i < parts.len() && 0 <= k < parts[i].len() ==> #[trigger] parts[i][k] != c,
    ensures
        split_from(pre + join_with(parts, seq![c]), seq![c], pre.len() as int) == parts,
    decreases parts.len(),
{
    let pat = seq![c];
    let s = pre + join_with(parts, pat);
    let i = pre.len() as int;
    let head = parts[0];
    if parts.len() == 1 {
        assert forall|k: int| i <= k implies !occurs_at(s, pat, k) by {
            if occurs_at(s, pat, k) {
                assert(s.subrange(k, k + 1)[0] == s[k]);
                assert(s[k] == head[k - i]);
            }
        }
        lemma_find_none(s, pat, i);
        assert(s.subrange(i, s.len() as int) =~= head);
        assert(seq![head] =~= parts);
    } else {
        let rest = parts.skip(1);
        let j = i + head.len();
        assert(s =~= (pre + head + pat) + join_with(rest, pat));
        assert(s[j] == c);
        assert(s.subrange(j, j + 1) =~= pat);
        assert forall|k: int| i <= k < j implies !occurs_at(s, pat, k) by {
            if occurs_at(s, pat, k) {
                assert(s.subrange(k, k + 1)[0] == s[k]);
                assert(s[k] == head[k - i]);
            }
        }
        lemma_find_first(s, pat, i, j);
        assert(s.subrange(i, j) =~= head);
        assert forall|a: int, k: int| 0 <= a < rest.len() && 0 <= k < rest[a].len() implies #[trigger] rest[a][k] != c by {
            assert(rest[a] == parts[a + 1]);
        }
        lemma_split_join(pre + head + pat, rest, c);
        assert(seq![head] + rest =~= parts);
    }
}

/// The first index at or after `from` where `pat` occurs in `s`.
pub fn find_pattern(s: &Vec<char>, pat: &Vec<char>, from: usize) -> (r: Option<usize>)
    requires
        pat@.len() > 0,
    ensures
        r matches Some(j) ==> find_from(s@, pat@, from as int) == Some(j as int),
        r is None ==> find_from(s@, pat@, from as int) is None,
{
    let mut i = from;
    if pat.len() > s.len() {
        return None;
    }
    while i <= s.len() - pat.len()
        invariant
            from <= i,
            pat@.len() > 0,
            pat@.len() <= s@.len(),
            find_from(s@, pat@, from as int) == find_from(s@, pat@, i as int),
        decreases s@.len() - i,
    {
        let mut k: usize = 0;
        let mut same = true;
        while k < pat.len()
            invariant
                k <= pat@.len(),
                i + pat@.len() <= s@.len(),
                s@.len() <= usize::MAX,
                same == (forall|m: int| 0 <= m < k ==> s@[i + m] == pat@[m]),
            decreases pat@.len() - k,
        {
            assert(i + k < s@.len());
            let idx: usize = i + k;
            if s[idx] != pat[k] {
                same = false;
            }
            k = k + 1;
        }
        if same {
            assert(s@.subrange(i as int, i + pat@.len()) =~= pat@);
            return Some(i);
        }
        proof {
            if s@.subrange(i as int, i + pat@.len()) == pat@ {
                let m = choose|m: int| 0 <= m < pat@.len() && s@[i + m] != pat@[m];
                assert(s@.subrange(i as int, i + pat@.len())[m] == s@[i + m]);
            }
        }
        i = i + 1;
    }
    None
}

/// The pieces of `s` from `from` on, cut at each occurrence of a nonempty
/// `pat`.
pub fn split_pattern(s: &Vec<char>, pat: &Vec<char>, from: usize) -> (r: Vec<Vec<char>>)
    requires
        pat@.len() > 0,
        from <= s@.len(),
    ensures
        r@.map_values(|p: Vec<char>| p@) == split_from(s@, pat@, from as int),
{
    let mut out: Vec<Vec<char>> = Vec::new();
    let mut pos = from;
    let n = s.len();
    loop
        invariant
            pat@.len() > 0,
            pos <= s@.len(),
            n == s@.len(),
            split_from(s@, pat@, from as int) == out@.map_values(|p: Vec<char>| p@) + split_from(s@, pat@, pos as int),
        decreases s@.len() - pos,
    {
        let found = find_pattern(s, pat, pos);
        proof {
            lemma_find_from_range(s@, pat@, pos as int);
        }
        let end = match found {
            Some(j) => j,
            None => n,
        };
        let mut piece: Vec<char> = Vec::new();
        let mut k = pos;
        while k < end
            invariant
                pos <= k <= end <= s@.len(),
                piece@ == s@.subrange(pos as int, k as int),
            decreases end - k,
        {
            piece.push(s[k]);
            proof {
                assert(s@.subrange(pos as int, k + 1) =~= s@.subrange(pos as int, k as int).push(s@[k as int]));
            }
            k = k + 1;
        }
        let ghost before = out@.map_values(|p: Vec<char>| p@);
        out.push(piece);
        proof {
            assert(out@.map_values(|p: Vec<char>| p@) =~= before.push(s@.subrange(pos as int, end as int)));
        }
        match found {
            Some(j) => {
                proof {
                    assert(occurs_at(s@, pat@, j as int));
                    assert(split_from(s@, pat@, pos as int) =~= seq![s@.subrange(pos as int, j as int)] + split_from(s@, pat@, j + pat@.len()));
                    assert(split_from(s@, pat@, from as int) =~= out@.map_values(|p: Vec<char>| p@) + split_from(s@, pat@, j + pat@.len()));
                }
                pos = j + pat.len();
            },
            None => {
                proof {
                    assert(split_from(s@, pat@, from as int) =~= out@.map_values(|p: Vec<char>| p@));
                }
                return out;
            },
        }
    }
}

/// Appends `parts` joined with `sep` to `out`.
pub fn push_joined(out: &mut Vec<char>, parts: &Vec<Vec<char>>, sep: &Vec<char>)
    ensures
        final(out)@ == old(out)@ + join_with(parts@.map_values(|p: Vec<char>| p@), sep@),
{
    let ghost views = parts@.map_values(|p: Vec<char>| p@);
    let ghost start = out@;
    let mut i: usize = 0;
    while i < parts.len()
        invariant
            i <= parts@.len(),
            views == parts@.map_values(|p: Vec<char>| p@),
            out@ == start + join_with(views.take(i as int), sep@),
        decreases parts@.len() - i,
    {
        if i > 0 {
            push_all(out, sep);
        }
        push_all(out, &parts[i]);
        proof {
            let t = views.take(i + 1);
            if i == 0 {
                assert(t =~= seq![views[0]]);
                assert(views.take(0) =~= Seq::<Seq<char>>::empty());
            } else {
                lemma_join_push(t, sep@);
                assert(t.drop_last() =~= views.take(i as int));
            }
            assert(out@ =~= start + join_with(t, sep@));
        }
        i = i + 1;
    }
    proof {
        assert(views.take(i as int) =~= views);
    }
}

/// Appends every character of `s` to `out`.
pub fn push_all(out: &mut Vec<char>, s: &Vec<char>)
    ensures
        final(out)@ == old(out)@ + s@,
{
    let ghost start = out@;
    let mut i: usize = 0;
    while i < s.len()
        invariant
            i <= s@.len(),
            out@ == start + s@.take(i as int),
        decreases s@.len() - i,
    {
        out.push(s[i]);
        proof {
            assert(s@.take(i + 1) =~= s@.take(i as int).push(s@[i as int]));
        }
        i = i + 1;
    }
    proof {
        assert(s@.take(i as int) =~= s@);
    }
}

/// Relies on `str::chars`, collected into a vector: the characters of `s`
/// in order.
#[verifier::external_body]
pub(crate) fn chars_of(s: &str) -> (r: Vec<char>)
    ensures
        r@ == s@,
{
    s.chars().collect()
}

/// Relies on `String`'s `FromIterator<char>`: the string of these
/// characters in order.
#[verifier::external_body]
pub(crate) fn string_of(cs: &Vec<char>) -> (r: String)
    ensures
        r@ == cs@,
{
    cs.iter().collect()
}

/// Every character of a join comes from a piece or from the separator.
pub proof fn lemma_join_chars(parts: Seq<Seq<char>>, sep: Seq<char>, p: spec_fn(char) -> bool)
    requires
        forall|i: int, k: int| 0 <= i < parts.len() && 0 <= k < parts[i].len() ==> p(#[trigger] parts[i][k]),
        forall|k: int| 0 <= k < sep.len() ==> p(#[trigger] sep[k]),
    ensures
        forall|k: int| 0 <= k < join_with(parts, sep).len() ==> p(#[trigger] join_with(parts, sep)[k]),
    decreases parts.len(),
{
    if parts.len() == 1 {
        assert forall|k: int| 0 <= k < join_with(parts, sep).len() implies p(#[trigger] join_with(parts, sep)[k]) by {
            assert(parts[0][k] == join_with(parts, sep)[k]);
        }
    } else if parts.len() > 1 {
        let rest = parts.skip(1);
        assert forall|i: int, k: int| 0 <= i < rest.len() && 0 <= k < rest[i].len() implies p(#[trigger] rest[i][k]) by {
            assert(rest[i] == parts[i + 1]);
        }
        lemma_join_chars(rest, sep, p);
        let j = join_with(parts, sep);
        let a = parts[0];
        let jr = join_with(rest, sep);
        assert(j == a + sep + jr);
        assert forall|k: int| 0 <= k < j.len() implies p(#[trigger] j[k]) by {
            if k < a.len() {
                assert(j[k] == a[k]);
            } else if k < a.len() + sep.len() {
                assert(j[k] == sep[k - a.len()]);
            } else {
                assert(j[k] == jr[k - a.len() - sep.len()]);
            }
        }
    }
}

} // verus!
