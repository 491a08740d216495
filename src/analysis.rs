//! Reading the `PATH` contributions of an LMOD module file.

use vstd::prelude::*;
use crate::crawl::{FileModel, ModuleFile, ModuleType};
use crate::text::{chars_of, concat_all, next_sep, slice_chars, split_spans, split_spec, views};

verus! {

/// A module file with the commands that its `PATH` directories provide.
#[derive(Debug)]
pub struct Info {
    pub file: ModuleFile,
    pub bins: Vec<String>,
}

/// What an `Info` holds, as plain values.
pub ghost struct InfoModel {
    pub file: FileModel,
    pub bins: Seq<Seq<char>>,
}

impl View for Info {
    type V = InfoModel;

    open spec fn view(&self) -> InfoModel {
        InfoModel { file: self.file@, bins: views(self.bins@) }
    }
}

/// The views of the listings of several directories.
pub open spec fn listing_views(ls: Seq<Vec<String>>) -> Seq<Seq<Seq<char>>> {
    ls.map_values(|l: Vec<String>| views(l@))
}

/// Characters that may stand between the tokens of a statement.
pub open spec fn is_blank(c: char) -> bool {
    c == ' ' || c == '\t' || c == '\r' || c == '\x0B' || c == '\x0C'
}

/// The first position at or after `i` that holds no blank.
pub open spec fn skip_blank(s: Seq<char>, i: int) -> int
    decreases s.len() - i,
{
    if 0 <= i < s.len() && is_blank(s[i]) {
        skip_blank(s, i + 1)
    } else {
        i
    }
}

/// After optional blanks from `i`, the token `t`: the position just past it.
pub open spec fn token_end(s: Seq<char>, i: int, t: Seq<char>) -> Option<int> {
    let j = skip_blank(s, i);
    if 0 <= j && j + t.len() <= s.len() && s.subrange(j, j + t.len()) == t {
        Some(j + t.len())
    } else {
        None
    }
}

pub open spec fn kw_prepend() -> Seq<char> {
    seq!['p', 'r', 'e', 'p', 'e', 'n', 'd', '_', 'p', 'a', 't', 'h']
}

pub open spec fn kw_path() -> Seq<char> {
    seq!['"', 'P', 'A', 'T', 'H', '"']
}

pub open spec fn kw_colon() -> Seq<char> {
    seq!['"', ':', '"']
}

/// From `i`: blanks, `)`, blanks, and the end of the line.
pub open spec fn closes_at(s: Seq<char>, i: int) -> bool {
    match token_end(s, i, seq![')']) {
        Some(z) => skip_blank(s, z) == s.len(),
        None => false,
    }
}

/// What may follow the directory's closing quote: `)`, or `, ":" )`.
pub open spec fn tail_ok(s: Seq<char>, i: int) -> bool {
    if token_end(s, i, seq![')']) is Some {
        closes_at(s, i)
    } else {
        match token_end(s, i, seq![',']) {
            Some(y) => match token_end(s, y, kw_colon()) {
                Some(x) => closes_at(s, x),
                None => false,
            },
            None => false,
        }
    }
}

/// Where the directory stands in a line of the form
/// `prepend_path("PATH", "<dir>")` or `prepend_path("PATH", "<dir>", ":")`,
/// with blanks allowed around every token; `None` for any other line.
pub open spec fn dir_span(s: Seq<char>) -> Option<(int, int)> {
    match token_end(s, 0, kw_prepend()) {
        None => None,
        Some(a) => match token_end(s, a, seq!['(']) {
            None => None,
            Some(b) => match token_end(s, b, kw_path()) {
                None => None,
                Some(c) => match token_end(s, c, seq![',']) {
                    None => None,
                    Some(d) => match token_end(s, d, seq!['"']) {
                        None => None,
                        Some(e) => {
                            let f = next_sep(s, e, '"');
                            if f == e || f >= s.len() || !tail_ok(s, f + 1) {
                                None
                            } else {
                                Some((e, f))
                            }
                        },
                    },
                },
            },
        },
    }
}

/// The directory that a line adds to `PATH`, if it is such a statement.
pub open spec fn line_dir(s: Seq<char>) -> Option<Seq<char>> {
    match dir_span(s) {
        Some(p) => Some(s.subrange(p.0, p.1)),
        None => None,
    }
}

/// The directories that the lines add to `PATH`, in line order.
pub open spec fn dirs_of_lines(lines: Seq<Seq<char>>) -> Seq<Seq<char>>
    decreases lines.len(),
{
    if lines.len() == 0 {
        seq![]
    } else {
        let rest = dirs_of_lines(lines.drop_last());
        match line_dir(lines.last()) {
            Some(d) => rest.push(d),
            None => rest,
        }
    }
}

/// The directories that an LMOD file's text adds to `PATH`.
pub open spec fn lmod_paths(contents: Seq<char>) -> Seq<Seq<char>> {
    dirs_of_lines(split_spec(contents, '\n'))
}

/// The directories to list for a module file: none for a TCL file.
pub open spec fn dirs_to_scan(contents: Seq<char>, modtype: ModuleType) -> Seq<Seq<char>> {
    match modtype {
        ModuleType::LMOD => lmod_paths(contents),
        ModuleType::TCL => seq![],
    }
}

fn skip_blank_at(s: &Vec<char>, i: usize) -> (j: usize)
    requires
        i <= s.len(),
    ensures
        j == skip_blank(s@, i as int),
        i <= j <= s.len(),
{
    let mut j = i;
    while j < s.len() && (s[j] == ' ' || s[j] == '\t' || s[j] == '\r' || s[j] == '\x0B' || s[j] == '\x0C')
        invariant
            i <= j <= s.len(),
            skip_blank(s@, i as int) == skip_blank(s@, j as int),
        decreases s.len() - j,
    {
        j = j + 1;
    }
    j
}

fn token_end_at(s: &Vec<char>, i: usize, t: &Vec<char>) -> (r: Option<usize>)
    requires
        i <= s.len(),
    ensures
        r is None <==> token_end(s@, i as int, t@) is None,
        r matches Some(k) ==> k <= s.len() && token_end(s@, i as int, t@) == Some(k as int),
{
    let j = skip_blank_at(s, i);
    if t.len() > s.len() - j {
        return None;
    }
    let mut m: usize = 0;
    while m < t.len()
        invariant
            j == skip_blank(s@, i as int),
            j + t.len() <= s.len(),
            m <= t.len(),
            forall|q: int| 0 <= q < m ==> s@[j + q] == t@[q],
        decreases t.len() - m,
    {
        if s[j + m] != t[m] {
            assert(s@.subrange(j as int, j + t.len())[m as int] != t@[m as int]);
            assert(s@.subrange(j as int, j + t.len()) != t@);
            return None;
        }
        m = m + 1;
    }
    assert(s@.subrange(j as int, j + t.len()) =~= t@);
    Some(j + t.len())
}

fn quote_at(s: &Vec<char>, i: usize) -> (k: usize)
    requires
        i <= s.len(),
    ensures
        k == next_sep(s@, i as int, '"'),
        i <= k <= s.len(),
    decreases s.len() - i,
{
    if i >= s.len() {
        s.len()
    } else if s[i] == '"' {
        i
    } else {
        quote_at(s, i + 1)
    }
}

fn closes_at_exec(s: &Vec<char>, i: usize, close: &Vec<char>) -> (r: bool)
    requires
        i <= s.len(),
        close@ == seq![')'],
    ensures
        r == closes_at(s@, i as int),
{
    match token_end_at(s, i, close) {
        Some(z) => skip_blank_at(s, z) == s.len(),
        None => false,
    }
}

/// Where the directory of a `prepend_path` statement on `PATH` stands in the line.
pub fn parse_dir_span(s: &Vec<char>) -> (r: Option<(usize, usize)>)
    ensures
        r is None <==> dir_span(s@) is None,
        r matches Some(p) ==> p.0 <= p.1 <= s.len() && dir_span(s@) == Some((p.0 as int, p.1 as int)),
{
    let prepend = vec!['p', 'r', 'e', 'p', 'e', 'n', 'd', '_', 'p', 'a', 't', 'h'];
    let open = vec!['('];
    let path = vec!['"', 'P', 'A', 'T', 'H', '"'];
    let comma = vec![','];
    let quote = vec!['"'];
    let colon = vec!['"', ':', '"'];
    let close = vec![')'];
    assert(prepend@ =~= kw_prepend());
    assert(path@ =~= kw_path());
    assert(colon@ =~= kw_colon());
    assert(open@ =~= seq!['(']);
    assert(comma@ =~= seq![',']);
    assert(quote@ =~= seq!['"']);
    assert(close@ =~= seq![')']);
    let a = match token_end_at(s, 0, &prepend) {
        Some(a) => a,
        None => return None,
    };
    let b = match token_end_at(s, a, &open) {
        Some(b) => b,
        None => return None,
    };
    let c = match token_end_at(s, b, &path) {
        Some(c) => c,
        None => return None,
    };
    let d = match token_end_at(s, c, &comma) {
        Some(d) => d,
        None => return None,
    };
    let e = match token_end_at(s, d, &quote) {
        Some(e) => e,
        None => return None,
    };
    let f = quote_at(s, e);
    if f == e || f >= s.len() {
        return None;
    }
    let tail = if token_end_at(s, f + 1, &close).is_some() {
        closes_at_exec(s, f + 1, &close)
    } else {
        match token_end_at(s, f + 1, &comma) {
            Some(y) => match token_end_at(s, y, &colon) {
                Some(x) => closes_at_exec(s, x, &close),
                None => false,
            },
            None => false,
        }
    };
    if tail {
        Some((e, f))
    } else {
        None
    }
}

/// The directories that an LMOD file's text adds to `PATH`, in line order.
pub fn extract_lmod_paths(contents: &str) -> (r: Vec<String>)
    ensures
        views(r@) == lmod_paths(contents@),
{
    let cs = chars_of(contents);
    let spans = split_spans(&cs, '\n');
    let ghost lines = split_spec(cs@, '\n');
    let mut r: Vec<String> = Vec::new();
    let mut k: usize = 0;
    while k < spans.len()
        invariant
            cs@ == contents@,
            lines == split_spec(cs@, '\n'),
            k <= spans.len(),
            spans.len() == lines.len(),
            forall|q: int| 0 <= q < spans.len() ==> {
                &&& (#[trigger] spans[q]).0 <= spans[q].1 <= cs.len()
                &&& lines[q] == cs@.subrange(spans[q].0 as int, spans[q].1 as int)
            },
            views(r@) == dirs_of_lines(lines.take(k as int)),
        decreases spans.len() - k,
    {
        let (lo, hi) = spans[k];
        let line = slice_chars(&cs, lo, hi);
        assert(lines.take(k as int + 1).drop_last() =~= lines.take(k as int));
        assert(lines.take(k as int + 1).last() == line@);
        match parse_dir_span(&line) {
            Some((e, f)) => {
                let dir = contents.substring_char(lo + e, lo + f).to_owned();
                assert(dir@ =~= line@.subrange(e as int, f as int));
                let ghost old_r = r@;
                r.push(dir);
                assert(views(r@) =~= views(old_r).push(dir@));
            },
            None => {},
        }
        k = k + 1;
    }
    assert(lines.take(spans.len() as int) =~= lines);
    r
}

/// The directories to list for a module file with the given text and type.
pub fn module_dirs(contents: &str, modtype: ModuleType) -> (r: Vec<String>)
    ensures
        views(r@) == dirs_to_scan(contents@, modtype),
{
    match modtype {
        ModuleType::LMOD => extract_lmod_paths(contents),
        ModuleType::TCL => {
            let r: Vec<String> = Vec::new();
            assert(views(r@) =~= seq![]);
            r
        },
    }
}

/// The commands of a module: the executables of each listed directory, the
/// directories in the order given, each listing in its own order.
pub fn analyze_bins(listings: &Vec<Vec<String>>) -> (r: Vec<String>)
    ensures
        views(r@) == concat_all(listing_views(listings@)),
{
    let mut r: Vec<String> = Vec::new();
    let mut k: usize = 0;
    while k < listings.len()
        invariant
            k <= listings.len(),
            views(r@) == concat_all(listing_views(listings@).take(k as int)),
        decreases listings.len() - k,
    {
        let ghost before = views(r@);
        let l = &listings[k];
        let mut m: usize = 0;
        while m < l.len()
            invariant
                k < listings.len(),
                l == listings[k as int],
                m <= l.len(),
                views(r@) == before + views(l@).take(m as int),
            decreases l.len() - m,
        {
            let ghost old_r = r@;
            r.push(l[m].clone());
            assert(views(r@) =~= views(old_r).push(l[m as int]@));
            assert(views(r@) =~= before + views(l@).take(m as int + 1));
            m = m + 1;
        }
        assert(listing_views(listings@).take(k as int + 1).drop_last() =~= listing_views(listings@).take(k as int));
        assert(views(l@).take(l.len() as int) =~= views(l@));
        k = k + 1;
    }
    assert(listing_views(listings@).take(listings.len() as int) =~= listing_views(listings@));
    r
}

/// The analysis of a module file, given the listing of executables of each
/// directory that its text adds to `PATH`.
pub fn analyze(file: ModuleFile, listings: &Vec<Vec<String>>) -> (r: Info)
    ensures
        r@ == (InfoModel { file: file@, bins: concat_all(listing_views(listings@)) }),
{
    let bins = analyze_bins(listings);
    Info { file, bins }
}

} // verus!
