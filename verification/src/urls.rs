//! Reading recon output into a table of URLs and their status codes.
//!
//! Each line holds a URL, optionally followed by its status code (`google.com
//! (200)`); a URL without a scheme is taken as `https://`. The URL parser is
//! the `url` crate's; a URL that occurs again keeps its first status code.

use vstd::prelude::*;
use vstd::hash_map::StringHashMap;
use crate::helpers::IdentifyFirstLast;
use crate::text::{
    CharClass,
    in_class,
    is_white_space,
    lemma_span_bounds,
    span,
    span_end,
    trim,
    trim_class,
    lemma_trim_class_head,
    trim_bounds,
    chars_of,
    string_of,
};

verus! {

/// What the `url` crate's `Url::parse` makes of its input when it succeeds:
/// the serialization of the URL, its host (`Url::host_str`) and its path
/// (`Url::path`); `None` where it refuses the input.
pub uninterp spec fn url_parse(input: Seq<char>) -> Option<(Seq<char>, Option<Seq<char>>, Seq<char>)>;

/// A URL as the parser left it: its serialization (what it is displayed as
/// and compared by), its host if it has one, and its path.
#[derive(Debug)]
pub struct ParsedUrl {
    pub serialization: String,
    pub host: Option<String>,
    pub path: String,
}

pub open spec fn opt_view(o: Option<String>) -> Option<Seq<char>> {
    match o {
        Some(s) => Some(s@),
        None => None,
    }
}

impl View for ParsedUrl {
    type V = (Seq<char>, Option<Seq<char>>, Seq<char>);

    open spec fn view(&self) -> (Seq<char>, Option<Seq<char>>, Seq<char>) {
        (self.serialization@, opt_view(self.host), self.path@)
    }
}

/// Parses an absolute URL with the `url` crate (`url::Url::parse`) and keeps
/// its serialization (`Url::as_str`), host (`Url::host_str`) and path
/// (`Url::path`). The contract claims only that the outcome is the one that
/// `url_parse` names for the input: the parser is deterministic, and what it
/// accepts and how it normalizes is left unstated.
#[verifier::external_body]
fn parse_url(input: &str) -> (r: Option<ParsedUrl>)
    ensures
        match r {
            Some(u) => url_parse(input@) == Some(u@),
            None => url_parse(input@) is None,
        },
{
    match url::Url::parse(input) {
        Ok(u) => Some(
            ParsedUrl {
                serialization: String::from(u.as_str()),
                host: u.host_str().map(String::from),
                path: String::from(u.path()),
            },
        ),
        Err(_) => None,
    }
}

/// The lines of `s`: the pieces between line feeds, without a last empty
/// piece after a final line feed.
pub open spec fn split_lines(s: Seq<char>) -> Seq<Seq<char>>
    decreases s.len(),
{
    if s.len() == 0 {
        Seq::empty()
    } else {
        let i = span(s, CharClass::LineChar);
        if i >= s.len() {
            seq![s]
        } else {
            seq![s.take(i as int)] + split_lines(s.skip(i + 1int))
        }
    }
}

/// The first whitespace-separated word of `s` and what follows it, if `s`
/// holds a word.
pub open spec fn next_word(s: Seq<char>) -> Option<(Seq<char>, Seq<char>)> {
    let a = span(s, CharClass::WhiteSpace);
    if a >= s.len() {
        None
    } else {
        let b = a + span(s.skip(a as int), CharClass::Word);
        Some((s.subrange(a as int, b as int), s.skip(b as int)))
    }
}

pub open spec fn starts_with(s: Seq<char>, p: Seq<char>) -> bool {
    p.len() <= s.len() && s.take(p.len() as int) == p
}

/// The line with `https://` put in front unless it starts with `http://` or
/// `https://`.
pub open spec fn with_scheme(t: Seq<char>) -> Seq<char> {
    if starts_with(t, "http://"@) || starts_with(t, "https://"@) {
        t
    } else {
        "https://"@ + t
    }
}

/// The status code in what follows the URL: its first word, or `Status code
/// not found`, trimmed of brackets.
pub open spec fn status_text(rest: Seq<char>) -> Seq<char> {
    trim_class(
        match next_word(rest) {
            Some((w, _)) => w,
            None => "Status code not found"@,
        },
        CharClass::Bracket,
    )
}

/// The URL text and the status code of one line: the first word of the
/// line, with its scheme, and the status code in what follows it.
pub open spec fn line_fields(line: Seq<char>) -> (Seq<char>, Seq<char>) {
    let (u, rest) = next_word(trim(with_scheme(trim(line)))).unwrap();
    (u, status_text(rest))
}

/// Every line holds a word once its scheme is in front: the URL text.
pub proof fn lemma_line_has_url(line: Seq<char>)
    ensures
        next_word(trim(with_scheme(trim(line)))) is Some,
{
    let t = trim(line);
    let x = with_scheme(t);
    reveal_strlit("http://");
    reveal_strlit("https://");
    if starts_with(t, "http://"@) {
        assert(t.take(7)[0] == t[0]);
    } else if starts_with(t, "https://"@) {
        assert(t.take(8)[0] == t[0]);
    }
    assert(x[0] == 'h');
    lemma_trim_class_head(x, CharClass::WhiteSpace, 0);
    let w = trim(x);
    assert(span(w, CharClass::WhiteSpace) == 0);
}

/// The URL text and status code of every line of `data`, in order.
pub open spec fn data_fields(data: Seq<char>) -> Seq<(Seq<char>, Seq<char>)> {
    let lines = split_lines(data);
    Seq::new(lines.len(), |i: int| line_fields(lines[i]))
}

/// The URL that one line names.
pub open spec fn field_url(f: (Seq<char>, Seq<char>)) -> (Seq<char>, Option<Seq<char>>, Seq<char>) {
    url_parse(f.0).unwrap()
}

/// Whether every line of `data` names a URL that the parser accepts.
pub open spec fn all_lines_parse(data: Seq<char>) -> bool {
    forall|i: int| 0 <= i < data_fields(data).len() ==> (#[trigger] url_parse(data_fields(data)[i].0)) is Some
}

/// An entry of the table: a URL and its status code.
#[derive(Debug)]
pub struct UrlEntry {
    pub url: ParsedUrl,
    pub status: String,
}

impl View for UrlEntry {
    type V = ((Seq<char>, Option<Seq<char>>, Seq<char>), Seq<char>);

    open spec fn view(&self) -> ((Seq<char>, Option<Seq<char>>, Seq<char>), Seq<char>) {
        (self.url@, self.status@)
    }
}

/// Whether some entry holds the URL whose serialization is `key`.
pub open spec fn has_key(t: Seq<((Seq<char>, Option<Seq<char>>, Seq<char>), Seq<char>)>, key: Seq<char>) -> bool {
    exists|i: int| 0 <= i < t.len() && (#[trigger] t[i]).0.0 == key
}

/// No two entries hold the same URL.
pub open spec fn keys_unique(t: Seq<((Seq<char>, Option<Seq<char>>, Seq<char>), Seq<char>)>) -> bool {
    forall|i: int, j: int| 0 <= i < j < t.len() ==> (#[trigger] t[i]).0.0 != (#[trigger] t[j]).0.0
}

/// The table that the first `k` entries make: each URL once, with the
/// status code of its first entry, in the order of first occurrence.
pub open spec fn first_occurrences(
    entries: Seq<((Seq<char>, Option<Seq<char>>, Seq<char>), Seq<char>)>,
    k: nat,
) -> Seq<((Seq<char>, Option<Seq<char>>, Seq<char>), Seq<char>)>
    decreases k,
{
    if k == 0 {
        Seq::empty()
    } else {
        let prev = first_occurrences(entries, (k - 1) as nat);
        if has_key(prev, entries[k - 1].0.0) {
            prev
        } else {
            prev.push(entries[k - 1])
        }
    }
}

/// The URL and status code of every line of `data`.
pub open spec fn data_entries(data: Seq<char>) -> Seq<((Seq<char>, Option<Seq<char>>, Seq<char>), Seq<char>)> {
    let fields = data_fields(data);
    Seq::new(fields.len(), |i: int| (field_url(fields[i]), fields[i].1))
}

/// The table that `data` makes.
pub open spec fn url_table(data: Seq<char>) -> Seq<((Seq<char>, Option<Seq<char>>, Seq<char>), Seq<char>)> {
    first_occurrences(data_entries(data), data_entries(data).len())
}

/// URLs with their status codes, each URL once, in the order in which they
/// were first inserted.
pub struct UrlTable {
    entries: Vec<UrlEntry>,
    positions: StringHashMap<usize>,
}

impl View for UrlTable {
    type V = Seq<((Seq<char>, Option<Seq<char>>, Seq<char>), Seq<char>)>;

    closed spec fn view(&self) -> Seq<((Seq<char>, Option<Seq<char>>, Seq<char>), Seq<char>)> {
        Seq::new(self.entries@.len(), |i: int| self.entries@[i]@)
    }
}

impl UrlTable {
    #[verifier::type_invariant]
    closed spec fn indexed(self) -> bool {
        &&& forall|i: int|
            0 <= i < self.entries@.len() ==> #[trigger] self.positions@.contains_key(
                self.entries@[i].url.serialization@,
            ) && self.positions@[self.entries@[i].url.serialization@] == i
        &&& forall|k: Seq<char>| #[trigger]
            self.positions@.contains_key(k) ==> self.positions@[k] < self.entries@.len()
                && self.entries@[self.positions@[k] as int].url.serialization@ == k
    }

    /// An empty table.
    pub fn new() -> (t: UrlTable)
        ensures
            t@ == Seq::<((Seq<char>, Option<Seq<char>>, Seq<char>), Seq<char>)>::empty(),
    {
        let t = UrlTable { entries: Vec::new(), positions: StringHashMap::new() };
        assert(t@ =~= Seq::empty());
        t
    }

    /// The number of entries.
    pub fn len(&self) -> (n: usize)
        ensures
            n == self@.len(),
    {
        self.entries.len()
    }

    /// The entry at `i`.
    pub fn get(&self, i: usize) -> (e: &UrlEntry)
        requires
            i < self@.len(),
        ensures
            e@ == self@[i as int],
    {
        &self.entries[i]
    }

    /// Whether the table holds the URL whose serialization is `key`.
    pub fn contains_key(&self, key: &str) -> (b: bool)
        ensures
            b == has_key(self@, key@),
    {
        proof {
            use_type_invariant(self);
        }
        let b = self.positions.contains_key(key);
        proof {
            if b {
                let p = self.positions@[key@] as int;
                assert(self@[p].0.0 == key@);
            }
            if has_key(self@, key@) {
                let i = choose|i: int| 0 <= i < self@.len() && (#[trigger] self@[i]).0.0 == key@;
                assert(self.entries@[i].url.serialization@ == key@);
            }
        }
        b
    }

    /// Puts the URL in with its status code unless the table holds it
    /// already; the status code of the entry that is there stays.
    pub fn entry_or_insert(&mut self, url: ParsedUrl, status: String)
        ensures
            final(self)@ == (if has_key(old(self)@, url.serialization@) {
                old(self)@
            } else {
                old(self)@.push((url@, status@))
            }),
            keys_unique(old(self)@) ==> keys_unique(final(self)@),
    {
        proof {
            use_type_invariant(&*self);
        }
        if self.contains_key(url.serialization.as_str()) {
            return ;
        }
        let key = url.serialization.clone();
        let n = self.entries.len();
        let ghost old_view = self@;
        let mut taken = UrlTable::new();
        std::mem::swap(self, &mut taken);
        proof {
            use_type_invariant(&taken);
        }
        let UrlTable { mut entries, mut positions } = taken;
        entries.push(UrlEntry { url, status });
        positions.insert(key, n);
        proof {
            assert forall|k: Seq<char>| #[trigger] positions@.contains_key(k) implies positions@[k]
                < entries@.len() && entries@[positions@[k] as int].url.serialization@ == k by {
                if k != key@ {
                    assert(taken.positions@.contains_key(k));
                }
            }
            assert forall|i: int| 0 <= i < entries@.len() implies #[trigger] positions@.contains_key(
                entries@[i].url.serialization@,
            ) && positions@[entries@[i].url.serialization@] == i by {
                if i < n {
                    assert(entries@[i] == taken.entries@[i]);
                    if entries@[i].url.serialization@ == key@ {
                        assert(old_view[i].0.0 == key@);
                    }
                }
            }
        }
        *self = UrlTable { entries, positions };
        assert(self@ =~= old_view.push((self.entries@[n as int].url@, self.entries@[n as int].status@)));
    }
}


/// Appends `v[lo..hi]` to `out`.
fn append_range(out: &mut Vec<char>, v: &Vec<char>, lo: usize, hi: usize)
    requires
        lo <= hi <= v@.len(),
    ensures
        final(out)@ == old(out)@ + v@.subrange(lo as int, hi as int),
{
    let mut i = lo;
    while i < hi
        invariant
            lo <= i <= hi <= v@.len(),
            out@ == old(out)@ + v@.subrange(lo as int, i as int),
        decreases hi - i,
    {
        out.push(v[i]);
        assert(v@.subrange(lo as int, i + 1) =~= v@.subrange(lo as int, i as int).push(v@[i as int]));
        i = i + 1;
    }
}

/// Whether `v[lo..hi]` starts with `p`.
fn starts_with_at(v: &Vec<char>, lo: usize, hi: usize, p: &Vec<char>) -> (b: bool)
    requires
        lo <= hi <= v@.len(),
    ensures
        b == starts_with(v@.subrange(lo as int, hi as int), p@),
{
    let ghost s = v@.subrange(lo as int, hi as int);
    if p.len() > hi - lo {
        return false;
    }
    let mut k: usize = 0;
    while k < p.len()
        invariant
            k <= p@.len() <= hi - lo,
            hi <= v@.len(),
            s == v@.subrange(lo as int, hi as int),
            forall|m: int| 0 <= m < k ==> s[m] == p@[m],
        decreases p@.len() - k,
    {
        if v[lo + k] != p[k] {
            assert(s.take(p@.len() as int)[k as int] != p@[k as int]);
            return false;
        }
        k = k + 1;
    }
    assert(s.take(p@.len() as int) =~= p@);
    true
}

/// Where the next word of `v[from..to]` stands, if it holds one.
fn next_word_in(v: &Vec<char>, from: usize, to: usize) -> (r: Option<(usize, usize)>)
    requires
        from <= to <= v@.len(),
    ensures
        match r {
            None => next_word(v@.subrange(from as int, to as int)) is None,
            Some((a, b)) => from <= a <= b <= to && next_word(v@.subrange(from as int, to as int))
                == Some((v@.subrange(a as int, b as int), v@.subrange(b as int, to as int))),
        },
{
    let ghost sub = v@.subrange(from as int, to as int);
    let a = span_end(v, from, to, CharClass::WhiteSpace);
    if a == to {
        return None;
    }
    let b = span_end(v, a, to, CharClass::Word);
    assert(sub.skip(a - from) =~= v@.subrange(a as int, to as int));
    assert(sub.subrange(a - from, b - from) =~= v@.subrange(a as int, b as int));
    assert(sub.skip(b - from) =~= v@.subrange(b as int, to as int));
    Some((a, b))
}

/// The status code that `w[from..to]`, what follows a URL, holds.
fn status_of(w: &Vec<char>, from: usize, to: usize) -> (s: String)
    requires
        from <= to <= w@.len(),
    ensures
        s@ == status_text(w@.subrange(from as int, to as int)),
{
    match next_word_in(w, from, to) {
        Some((p, q)) => {
            let (x, y) = trim_bounds(w, p, q, CharClass::Bracket);
            string_of(w, x, y)
        },
        None => {
            let dflt = chars_of("Status code not found");
            let (x, y) = trim_bounds(&dflt, 0, dflt.len(), CharClass::Bracket);
            assert(dflt@.subrange(0, dflt@.len() as int) =~= dflt@);
            string_of(&dflt, x, y)
        },
    }
}

/// The URL text and status code of the line `v[lo..hi]`.
fn fields_of_line(v: &Vec<char>, lo: usize, hi: usize) -> (r: (String, String))
    requires
        lo <= hi <= v@.len(),
    ensures
        (r.0@, r.1@) == line_fields(v@.subrange(lo as int, hi as int)),
{
    let (a, b) = trim_bounds(v, lo, hi, CharClass::WhiteSpace);
    let http = chars_of("http://");
    let https = chars_of("https://");
    let has_scheme = starts_with_at(v, a, b, &http) || starts_with_at(v, a, b, &https);
    let mut w: Vec<char> = Vec::new();
    if !has_scheme {
        append_range(&mut w, &https, 0, https.len());
        assert(https@.subrange(0, https@.len() as int) =~= https@);
    }
    append_range(&mut w, v, a, b);
    assert(w@ =~= with_scheme(trim(v@.subrange(lo as int, hi as int))));
    let (c, d) = trim_bounds(&w, 0, w.len(), CharClass::WhiteSpace);
    assert(w@.subrange(0, w@.len() as int) =~= w@);
    match next_word_in(&w, c, d) {
        Some((x, y)) => {
            let url = string_of(&w, x, y);
            let status = status_of(&w, y, d);
            (url, status)
        },
        None => {
            proof {
                lemma_line_has_url(v@.subrange(lo as int, hi as int));
            }
            vstd::pervasive::unreached()
        },
    }
}

/// The URL text and status code of every line of `data`, in order (see
/// [`data_fields`]).
pub fn line_texts(data: &str) -> (r: Vec<(String, String)>)
    ensures
        r@.len() == data_fields(data@).len(),
        forall|k: int| 0 <= k < r@.len() ==> ((#[trigger] r@[k]).0@, r@[k].1@) == data_fields(data@)[k],
{
    let v = chars_of(data);
    let n = v.len();
    let mut r: Vec<(String, String)> = Vec::new();
    let ghost mut done: Seq<Seq<char>> = Seq::empty();
    let mut i: usize = 0;
    assert(v@.skip(0) =~= v@);
    while i < n
        invariant
            i <= n == v@.len(),
            v@ == data@,
            split_lines(v@) == done + split_lines(v@.skip(i as int)),
            r@.len() == done.len(),
            forall|k: int| 0 <= k < r@.len() ==> ((#[trigger] r@[k]).0@, r@[k].1@) == line_fields(done[k]),
        decreases n - i,
    {
        let j = span_end(&v, i, n, CharClass::LineChar);
        let f = fields_of_line(&v, i, j);
        let ghost s = v@.skip(i as int);
        assert(v@.subrange(i as int, n as int) =~= s);
        assert(s.take(j - i) =~= v@.subrange(i as int, j as int));
        r.push(f);
        proof {
            let line = v@.subrange(i as int, j as int);
            if j < n {
                assert(s.skip(j - i + 1) =~= v@.skip(j + 1));
                assert(split_lines(s) == seq![line] + split_lines(v@.skip(j + 1)));
                assert(done.push(line) + split_lines(v@.skip(j + 1)) =~= done + split_lines(s));
            } else {
                assert(split_lines(s) == seq![line]);
                assert(v@.skip(n as int) =~= Seq::<char>::empty());
                assert(done.push(line) + split_lines(v@.skip(n as int)) =~= done + split_lines(s));
            }
            done = done.push(line);
        }
        if j < n {
            i = j + 1;
        } else {
            i = n;
        }
    }
    proof {
        assert(v@.skip(n as int) =~= Seq::<char>::empty());
        assert(done =~= split_lines(data@));
    }
    r
}

/// The table that the entries make (see [`first_occurrences`]).
pub fn table_from_entries(entries: Vec<UrlEntry>) -> (t: UrlTable)
    ensures
        t@ == first_occurrences(entries_view(entries@), entries@.len()),
        keys_unique(t@),
{
    let ghost all = entries_view(entries@);
    let ghost n = entries@.len();
    let mut it = entries.identify_first_last();
    let mut t = UrlTable::new();
    let ghost mut k: nat = 0;
    assert(t@ =~= first_occurrences(all, 0));
    loop
        invariant
            k <= n,
            all.len() == n,
            it@.1.len() == n - k,
            forall|i: int| 0 <= i < n - k ==> (#[trigger] it@.1[i])@ == all[k + i],
            t@ == first_occurrences(all, k),
            keys_unique(t@),
        ensures
            k == n,
            t@ == first_occurrences(all, k),
            keys_unique(t@),
        decreases n - k,
    {
        let ghost before = it@;
        match it.next() {
            Some((_, _, e)) => {
                assert(e@ == all[k as int]);
                t.entry_or_insert(e.url, e.status);
                proof {
                    assert forall|i: int| 0 <= i < n - (k + 1) implies (#[trigger] it@.1[i])@
                        == all[(k + 1) + i] by {
                        assert(it@.1[i] == before.1[i + 1]);
                    }
                    k = k + 1;
                }
            },
            None => {
                break ;
            },
        }
    }
    t
}

/// The views of a list of entries.
pub open spec fn entries_view(v: Seq<UrlEntry>) -> Seq<((Seq<char>, Option<Seq<char>>, Seq<char>), Seq<char>)> {
    Seq::new(v.len(), |i: int| v[i]@)
}

/// Reads recon output into a table (see [`url_table`]): every line names a
/// URL, with `https://` in front of one without a scheme, and an optional
/// status code; each URL is kept once, with the status code of its first
/// line.
pub fn parse_urls(data: String) -> (t: UrlTable)
    requires
        all_lines_parse(data@),
    ensures
        t@ == url_table(data@),
        keys_unique(t@),
{
    let fields = line_texts(data.as_str());
    let ghost all = data_fields(data@);
    let ghost want = data_entries(data@);
    let mut entries: Vec<UrlEntry> = Vec::new();
    let mut i: usize = 0;
    while i < fields.len()
        invariant
            i <= fields@.len() == all.len() == want.len(),
            all == data_fields(data@),
            want == data_entries(data@),
            all_lines_parse(data@),
            forall|k: int| 0 <= k < fields@.len() ==> ((#[trigger] fields@[k]).0@, fields@[k].1@) == all[k],
            entries@.len() == i,
            forall|k: int| 0 <= k < i ==> (#[trigger] entries@[k])@ == want[k],
        decreases fields@.len() - i,
    {
        assert(((fields@[i as int]).0@, fields@[i as int].1@) == all[i as int]);
        assert(url_parse(all[i as int].0) is Some);
        match parse_url(fields[i].0.as_str()) {
            Some(u) => {
                entries.push(UrlEntry { url: u, status: fields[i].1.clone() });
            },
            None => vstd::pervasive::unreached(),
        }
        i = i + 1;
    }
    assert(entries_view(entries@) =~= want);
    table_from_entries(entries)
}

/// Reads recon output into a table when the parser accepts the URL of every
/// line; otherwise gives back the index of the first line whose URL it
/// refuses.
pub fn try_parse_urls(data: String) -> (r: Result<UrlTable, usize>)
    ensures
        match r {
            Ok(t) => all_lines_parse(data@) && t@ == url_table(data@) && keys_unique(t@),
            Err(i) => i < data_fields(data@).len() && url_parse(data_fields(data@)[i as int].0) is None
                && forall|k: int| 0 <= k < i ==> (#[trigger] url_parse(data_fields(data@)[k].0)) is Some,
        },
{
    let fields = line_texts(data.as_str());
    let ghost all = data_fields(data@);
    let mut i: usize = 0;
    while i < fields.len()
        invariant
            i <= fields@.len() == all.len(),
            all == data_fields(data@),
            forall|k: int| 0 <= k < fields@.len() ==> ((#[trigger] fields@[k]).0@, fields@[k].1@) == all[k],
            forall|k: int| 0 <= k < i ==> (#[trigger] url_parse(all[k].0)) is Some,
        decreases fields@.len() - i,
    {
        assert(((fields@[i as int]).0@, fields@[i as int].1@) == all[i as int]);
        if parse_url(fields[i].0.as_str()).is_none() {
            return Err(i);
        }
        i = i + 1;
    }
    Ok(parse_urls(data))
}

/// No entry before the `j`-th holds the URL that it holds.
pub open spec fn first_with_key(entries: Seq<((Seq<char>, Option<Seq<char>>, Seq<char>), Seq<char>)>, j: int) -> bool {
    forall|j2: int| 0 <= j2 < j ==> (#[trigger] entries[j2]).0.0 != entries[j].0.0
}

/// What the table of the first `k` entries holds: no URL twice; the URL of
/// each of these entries; and, for each of its entries, the first entry
/// that holds its URL.
pub proof fn lemma_first_occurrences(entries: Seq<((Seq<char>, Option<Seq<char>>, Seq<char>), Seq<char>)>, k: nat)
    requires
        k <= entries.len(),
    ensures
        keys_unique(first_occurrences(entries, k)),
        forall|j: int| 0 <= j < k ==> has_key(first_occurrences(entries, k), (#[trigger] entries[j]).0.0),
        forall|i: int|
            0 <= i < first_occurrences(entries, k).len() ==> exists|j: int|
                0 <= j < k && #[trigger] first_occurrences(entries, k)[i] == entries[j]
                    && first_with_key(entries, j),
    decreases k,
{
    if k > 0 {
        let prev = first_occurrences(entries, (k - 1) as nat);
        let e = entries[k - 1];
        lemma_first_occurrences(entries, (k - 1) as nat);
        let t = first_occurrences(entries, k);
        if has_key(prev, e.0.0) {
            assert(t == prev);
        } else {
            assert(t == prev.push(e));
            assert forall|i: int, j: int| 0 <= i < j < t.len() implies (#[trigger] t[i]).0.0
                != (#[trigger] t[j]).0.0 by {
                if j == prev.len() {
                    assert(prev[i] == t[i]);
                }
            }
            assert forall|j: int| 0 <= j < k implies has_key(t, (#[trigger] entries[j]).0.0) by {
                if j < k - 1 {
                    let i = choose|i: int| 0 <= i < prev.len() && (#[trigger] prev[i]).0.0 == entries[j].0.0;
                    assert(t[i] == prev[i]);
                } else {
                    assert(t[prev.len() as int].0.0 == e.0.0);
                }
            }
            assert forall|i: int| 0 <= i < t.len() implies exists|j: int|
                0 <= j < k && #[trigger] t[i] == entries[j] && first_with_key(entries, j) by {
                if i < prev.len() {
                    assert(t[i] == prev[i]);
                } else {
                    assert forall|j2: int| 0 <= j2 < k - 1 implies (#[trigger] entries[j2]).0.0
                        != entries[k - 1].0.0 by {
                        assert(has_key(prev, entries[j2].0.0));
                    }
                    assert(first_with_key(entries, k - 1));
                    assert(t[i] == entries[k - 1]);
                }
            }
        }
    }
}

/// What a table read from recon output holds: no URL twice; the URL of
/// every line; and, for each entry, the URL and the status code of the first
/// line that names that URL.
pub proof fn lemma_url_table_first_occurrence(data: Seq<char>)
    ensures
        keys_unique(url_table(data)),
        forall|j: int|
            0 <= j < data_entries(data).len() ==> has_key(
                url_table(data),
                (#[trigger] data_entries(data)[j]).0.0,
            ),
        forall|i: int|
            0 <= i < url_table(data).len() ==> exists|j: int|
                0 <= j < data_entries(data).len() && #[trigger] url_table(data)[i]
                    == data_entries(data)[j] && first_with_key(data_entries(data), j),
{
    lemma_first_occurrences(data_entries(data), data_entries(data).len());
}

/// An entry that holds the URL of an earlier entry leaves the table as it
/// was.
pub proof fn lemma_repeated_url_changes_nothing(
    entries: Seq<((Seq<char>, Option<Seq<char>>, Seq<char>), Seq<char>)>,
    k: nat,
    j: int,
)
    requires
        0 <= j < k < entries.len(),
        entries[j].0.0 == entries[k as int].0.0,
    ensures
        first_occurrences(entries, k + 1) == first_occurrences(entries, k),
{
    lemma_first_occurrences(entries, k);
    assert(has_key(first_occurrences(entries, k), entries[j].0.0));
}

/// The next word of `s`: none when `s` is all whitespace; otherwise `s`
/// is some whitespace, then the word, a non-empty run without whitespace,
/// then what follows it, which starts with whitespace unless it is empty.
pub proof fn lemma_next_word_bounds(s: Seq<char>)
    ensures
        (next_word(s) is None) <==> (forall|k: int| 0 <= k < s.len() ==> is_white_space(#[trigger] s[k])),
        next_word(s) matches Some((w, rest)) ==> exists|a: int|
            0 <= a && s == s.take(a) + w + rest && (forall|k: int|
                0 <= k < a ==> is_white_space(#[trigger] s[k])) && w.len() > 0 && (forall|k: int|
                0 <= k < w.len() ==> !is_white_space(#[trigger] w[k])) && (rest.len() > 0
                ==> is_white_space(rest[0])),
{
    lemma_span_bounds(s, CharClass::WhiteSpace);
    let a = span(s, CharClass::WhiteSpace) as int;
    if a < s.len() {
        let t = s.skip(a);
        lemma_span_bounds(t, CharClass::Word);
        let n = span(t, CharClass::Word) as int;
        assert(t[0] == s[a]);
        let w = s.subrange(a, a + n);
        let rest = s.skip(a + n);
        assert forall|k: int| 0 <= k < w.len() implies !is_white_space(#[trigger] w[k]) by {
            assert(w[k] == t[k]);
            assert(in_class(CharClass::Word, t[k]));
        }
        if rest.len() > 0 {
            assert(rest[0] == t[n]);
        }
        assert(s =~= s.take(a) + w + rest);
        assert(!is_white_space(s[a]));
    }
}

/// The lines joined back with line feeds.
pub open spec fn join_lines(lines: Seq<Seq<char>>) -> Seq<char>
    decreases lines.len(),
{
    if lines.len() == 0 {
        Seq::empty()
    } else if lines.len() == 1 {
        lines[0]
    } else {
        lines[0] + seq!['\n'] + join_lines(lines.drop_first())
    }
}

/// The lines of `s` hold no line feed and, joined back with line feeds, give
/// `s` again, but for the final line feed of an `s` that ends with one; `s`
/// has no line only when it is empty.
pub proof fn lemma_split_lines_rejoin(s: Seq<char>)
    ensures
        forall|i: int, k: int|
            0 <= i < split_lines(s).len() && 0 <= k < split_lines(s)[i].len() ==> #[trigger] split_lines(
                s,
            )[i][k] != '\n',
        (split_lines(s).len() == 0) <==> (s.len() == 0),
        s.len() > 0 && s.last() == '\n' ==> s == join_lines(split_lines(s)) + seq!['\n'],
        !(s.len() > 0 && s.last() == '\n') ==> s == join_lines(split_lines(s)),
    decreases s.len(),
{
    if s.len() > 0 {
        lemma_span_bounds(s, CharClass::LineChar);
        let i = span(s, CharClass::LineChar) as int;
        let first = s.take(i);
        assert forall|k: int| 0 <= k < first.len() implies first[k] != '\n' by {
            assert(first[k] == s[k]);
            assert(in_class(CharClass::LineChar, s[k]));
        }
        if i >= s.len() {
            assert(s.take(i) =~= s);
            assert(split_lines(s) == seq![s]);
            assert(in_class(CharClass::LineChar, s[s.len() - 1]));
        } else {
            let r = s.skip(i + 1);
            lemma_split_lines_rejoin(r);
            let lines = split_lines(s);
            assert(lines == seq![first] + split_lines(r));
            assert forall|j: int, k: int|
                0 <= j < lines.len() && 0 <= k < lines[j].len() implies #[trigger] lines[j][k] != '\n' by {
                if j > 0 {
                    assert(lines[j] == split_lines(r)[j - 1]);
                }
            }
            assert(s[i] == '\n');
            if r.len() == 0 {
                assert(split_lines(r).len() == 0);
                assert(lines =~= seq![first]);
                assert(s =~= first + seq!['\n']);
                assert(s.last() == '\n');
            } else {
                assert(lines.drop_first() =~= split_lines(r));
                assert(join_lines(lines) == first + seq!['\n'] + join_lines(split_lines(r)));
                assert(r.last() == s.last());
                if s.last() == '\n' {
                    assert(s =~= first + seq!['\n'] + (join_lines(split_lines(r)) + seq!['\n']));
                } else {
                    assert(s =~= first + seq!['\n'] + join_lines(split_lines(r)));
                }
            }
        }
    }
}

} // verus!
