//! Character-level helpers: splitting, joining and substring search.

use vstd::prelude::*;

verus! {

/// First position at or after `i` that holds `sep`, or `s.len()` if none does.
pub open spec fn next_sep(s: Seq<char>, i: int, sep: char) -> int
    decreases s.len() - i,
{
    if i < 0 || i >= s.len() {
        s.len() as int
    } else if s[i] == sep {
        i
    } else {
        next_sep(s, i + 1, sep)
    }
}

/// The pieces of `s` from position `i` on, cut at every `sep`.
pub open spec fn pieces_from(s: Seq<char>, i: int, sep: char) -> Seq<Seq<char>>
    decreases s.len() + 1 - i,
{
    if i < 0 || i > s.len() {
        seq![]
    } else {
        let k = next_sep(s, i, sep);
        if k >= s.len() || k < i {
            seq![s.subrange(i, s.len() as int)]
        } else {
            seq![s.subrange(i, k)] + pieces_from(s, k + 1, sep)
        }
    }
}

/// `s` cut at every `sep`; an empty `s` gives one empty piece.
pub open spec fn split_spec(s: Seq<char>, sep: char) -> Seq<Seq<char>> {
    pieces_from(s, 0, sep)
}

/// The pieces written one after another with `sep` between them.
pub open spec fn join_spec(ps: Seq<Seq<char>>, sep: Seq<char>) -> Seq<char>
    decreases ps.len(),
{
    if ps.len() == 0 {
        seq![]
    } else if ps.len() == 1 {
        ps[0]
    } else {
        join_spec(ps.drop_last(), sep) + sep + ps.last()
    }
}

/// The sequences written one after another.
pub open spec fn concat_all<A>(ss: Seq<Seq<A>>) -> Seq<A>
    decreases ss.len(),
{
    if ss.len() == 0 {
        seq![]
    } else {
        concat_all(ss.drop_last()) + ss.last()
    }
}

/// `t` occurs in `s` as a contiguous run.
pub open spec fn occurs_in(t: Seq<char>, s: Seq<char>) -> bool {
    exists|i: int| 0 <= i <= s.len() - t.len() && #[trigger] s.subrange(i, i + t.len()) == t
}

proof fn lemma_next_sep(s: Seq<char>, i: int, k: int, sep: char)
    requires
        0 <= i <= k <= s.len(),
        forall|j: int| i <= j < k ==> s[j] != sep,
        k == s.len() || s[k] == sep,
    ensures
        next_sep(s, i, sep) == k,
    decreases k - i,
{
    if i < k {
        lemma_next_sep(s, i + 1, k, sep);
    }
}

proof fn lemma_next_sep_props(s: Seq<char>, i: int, sep: char)
    requires
        0 <= i <= s.len(),
    ensures
        i <= next_sep(s, i, sep) <= s.len(),
        forall|j: int| i <= j < next_sep(s, i, sep) ==> s[j] != sep,
        next_sep(s, i, sep) < s.len() ==> s[next_sep(s, i, sep)] == sep,
    decreases s.len() - i,
{
    if i < s.len() && s[i] != sep {
        lemma_next_sep_props(s, i + 1, sep);
    }
}

proof fn lemma_pieces_append(s: Seq<char>, p: Seq<char>, sep: char, i: int)
    requires
        0 <= i <= s.len(),
        !p.contains(sep),
    ensures
        pieces_from(s + seq![sep] + p, i, sep) == pieces_from(s, i, sep).push(p),
    decreases s.len() - i,
{
    let x = s + seq![sep] + p;
    lemma_next_sep_props(s, i, sep);
    let k = next_sep(s, i, sep);
    if k < s.len() {
        lemma_next_sep(x, i, k, sep);
        lemma_pieces_append(s, p, sep, k + 1);
        assert(x.subrange(i, k) =~= s.subrange(i, k));
        assert(seq![s.subrange(i, k)] + pieces_from(s, k + 1, sep).push(p) =~= (seq![s.subrange(i, k)]
            + pieces_from(s, k + 1, sep)).push(p));
    } else {
        lemma_next_sep(x, i, s.len() as int, sep);
        assert forall|j: int| s.len() + 1 <= j < x.len() implies x[j] != sep by {
            assert(x[j] == p[j - s.len() - 1]);
        }
        lemma_next_sep(x, s.len() + 1 as int, x.len() as int, sep);
        assert(x.subrange(s.len() + 1 as int, x.len() as int) =~= p);
        assert(x.subrange(i, s.len() as int) =~= s.subrange(i, s.len() as int));
        assert(pieces_from(x, s.len() + 1 as int, sep) == seq![p]);
        assert(seq![s.subrange(i, s.len() as int)] + seq![p] =~= seq![s.subrange(i, s.len() as int)].push(p));
    }
}

/// Cutting at `sep` undoes joining with `sep` when no piece holds `sep` and
/// there is at least one piece.
pub proof fn lemma_split_join(ps: Seq<Seq<char>>, sep: char)
    requires
        ps.len() >= 1,
        forall|k: int| 0 <= k < ps.len() ==> !(#[trigger] ps[k]).contains(sep),
    ensures
        split_spec(join_spec(ps, seq![sep]), sep) == ps,
    decreases ps.len(),
{
    if ps.len() == 1 {
        let p = ps[0];
        assert forall|j: int| 0 <= j < p.len() implies p[j] != sep by {
            if p[j] == sep {
                assert(p.contains(sep));
            }
        }
        lemma_next_sep(p, 0, p.len() as int, sep);
        assert(p.subrange(0, p.len() as int) =~= p);
        assert(seq![p] =~= ps);
    } else {
        let d = ps.drop_last();
        assert forall|k: int| 0 <= k < d.len() implies !(#[trigger] d[k]).contains(sep) by {
            assert(d[k] == ps[k]);
        }
        lemma_split_join(d, sep);
        assert(!ps.last().contains(sep)) by {
            assert(ps.last() == ps[ps.len() - 1]);
        }
        lemma_pieces_append(join_spec(d, seq![sep]), ps.last(), sep, 0);
        assert(d.push(ps.last()) =~= ps);
    }
}

/// The characters of `s`, one per element.
pub fn chars_of(s: &str) -> (r: Vec<char>)
    ensures
        r@ == s@,
{
    let mut r: Vec<char> = Vec::new();
    for c in it: s.chars()
        invariant
            it.seq() == s@,
            r@ == it.seq().take(it.index() as int),
    {
        r.push(c);
        assert(r@ =~= it.seq().take(it.index() as int + 1));
    }
    assert(r@ =~= s@);
    r
}

/// Start and end of each piece of `s` cut at `sep`.
pub fn split_spans(s: &Vec<char>, sep: char) -> (r: Vec<(usize, usize)>)
    ensures
        r.len() == split_spec(s@, sep).len(),
        forall|k: int| 0 <= k < r.len() ==> {
            &&& (#[trigger] r[k]).0 <= r[k].1 <= s.len()
            &&& split_spec(s@, sep)[k] == s@.subrange(r[k].0 as int, r[k].1 as int)
        },
{
    let mut r: Vec<(usize, usize)> = Vec::new();
    let mut start: usize = 0;
    let mut i: usize = 0;
    while i < s.len()
        invariant
            start <= i <= s.len(),
            forall|j: int| start <= j < i ==> s@[j] != sep,
            forall|k: int| 0 <= k < r.len() ==> (#[trigger] r[k]).0 <= r[k].1 <= s.len(),
            r@.map_values(|p: (usize, usize)| s@.subrange(p.0 as int, p.1 as int)) + pieces_from(
                s@,
                start as int,
                sep,
            ) == split_spec(s@, sep),
        decreases s.len() - i,
    {
        if s[i] == sep {
            proof {
                lemma_next_sep(s@, start as int, i as int, sep);
            }
            let ghost old_r = r@;
            r.push((start, i));
            assert(r@.map_values(|p: (usize, usize)| s@.subrange(p.0 as int, p.1 as int))
                =~= old_r.map_values(|p: (usize, usize)| s@.subrange(p.0 as int, p.1 as int))
                + seq![s@.subrange(start as int, i as int)]);
            start = i + 1;
        }
        i = i + 1;
    }
    proof {
        lemma_next_sep(s@, start as int, s.len() as int, sep);
    }
    let ghost old_r = r@;
    r.push((start, s.len()));
    assert(r@.map_values(|p: (usize, usize)| s@.subrange(p.0 as int, p.1 as int)) =~= old_r.map_values(
        |p: (usize, usize)| s@.subrange(p.0 as int, p.1 as int),
    ) + seq![s@.subrange(start as int, s.len() as int)]);
    assert forall|k: int| 0 <= k < r.len() implies #[trigger] split_spec(s@, sep)[k] == s@.subrange(
        r[k].0 as int,
        r[k].1 as int,
    ) by {
        assert(r@.map_values(|p: (usize, usize)| s@.subrange(p.0 as int, p.1 as int))[k]
            == s@.subrange(r[k].0 as int, r[k].1 as int));
    }
    r
}

/// The views of a sequence of strings.
pub open spec fn views(v: Seq<String>) -> Seq<Seq<char>> {
    v.map_values(|x: String| x@)
}

/// The characters of `s` from `lo` up to `hi`.
pub fn slice_chars(s: &Vec<char>, lo: usize, hi: usize) -> (r: Vec<char>)
    requires
        lo <= hi <= s.len(),
    ensures
        r@ == s@.subrange(lo as int, hi as int),
{
    let mut r: Vec<char> = Vec::new();
    let mut i: usize = lo;
    while i < hi
        invariant
            lo <= i <= hi <= s.len(),
            r@ == s@.subrange(lo as int, i as int),
        decreases hi - i,
    {
        r.push(s[i]);
        assert(r@ =~= s@.subrange(lo as int, i + 1));
        i = i + 1;
    }
    r
}

/// Whether `t` occurs in `s` as a contiguous run.
pub fn occurs(t: &Vec<char>, s: &Vec<char>) -> (r: bool)
    ensures
        r == occurs_in(t@, s@),
{
    if t.len() > s.len() {
        return false;
    }
    let last: usize = s.len() - t.len();
    let mut i: usize = 0;
    while i <= last
        invariant
            t.len() <= s.len(),
            last == s.len() - t.len(),
            i <= last + 1,
            forall|k: int| 0 <= k < i ==> #[trigger] s@.subrange(k, k + t.len()) != t@,
        decreases last + 1 - i,
    {
        let mut j: usize = 0;
        let mut same = true;
        while j < t.len()
            invariant
                i <= last,
                last == s.len() - t.len(),
                j <= t.len(),
                same == (forall|m: int| 0 <= m < j ==> s@[i + m] == t@[m]),
            decreases t.len() - j,
        {
            if s[i + j] != t[j] {
                same = false;
            }
            j = j + 1;
        }
        if same {
            assert(s@.subrange(i as int, i + t.len()) =~= t@);
            return true;
        }
        assert(s@.subrange(i as int, i + t.len()) != t@) by {
            let m = choose|m: int| 0 <= m < t.len() && s@[i + m] != t@[m];
            assert(s@.subrange(i as int, i + t.len())[m] == s@[i + m]);
        }
        i = i + 1;
    }
    false
}

/// The pieces of `s` cut at every `sep`.
pub fn pieces_of(s: &str, sep: char) -> (r: Vec<String>)
    ensures
        views(r@) == split_spec(s@, sep),
{
    let cs = chars_of(s);
    let spans = split_spans(&cs, sep);
    let mut r: Vec<String> = Vec::new();
    let mut k: usize = 0;
    while k < spans.len()
        invariant
            cs@ == s@,
            k <= spans.len(),
            spans.len() == split_spec(cs@, sep).len(),
            forall|q: int| 0 <= q < spans.len() ==> {
                &&& (#[trigger] spans[q]).0 <= spans[q].1 <= cs.len()
                &&& split_spec(cs@, sep)[q] == cs@.subrange(spans[q].0 as int, spans[q].1 as int)
            },
            views(r@) == split_spec(s@, sep).take(k as int),
        decreases spans.len() - k,
    {
        let (a, b) = spans[k];
        assert(split_spec(s@, sep)[k as int] == s@.subrange(a as int, b as int));
        let piece = s.substring_char(a, b).to_owned();
        let ghost old_r = r@;
        r.push(piece);
        assert(views(r@) =~= views(old_r).push(split_spec(s@, sep)[k as int]));
        assert(views(r@) =~= split_spec(s@, sep).take(k as int + 1));
        k = k + 1;
    }
    assert(views(r@) =~= split_spec(s@, sep));
    r
}

/// The pieces written one after another with `sep` between them.
pub fn join_with(ps: &Vec<String>, sep: &str) -> (r: String)
    ensures
        r@ == join_spec(views(ps@), sep@),
{
    let mut r = String::new();
    let mut k: usize = 0;
    while k < ps.len()
        invariant
            k <= ps.len(),
            r@ == join_spec(views(ps@).take(k as int), sep@),
        decreases ps.len() - k,
    {
        let ghost prev = views(ps@).take(k as int);
        assert(views(ps@).take(k as int + 1).drop_last() =~= prev);
        if k > 0 {
            r.append(sep);
        }
        r.append(ps[k].as_str());
        proof {
            if k == 0 {
                assert(prev =~= seq![]);
                assert(r@ =~= views(ps@).take(1)[0]);
            }
        }
        k = k + 1;
    }
    assert(views(ps@).take(ps.len() as int) =~= views(ps@));
    r
}

} // verus!
