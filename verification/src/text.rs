//! Character-level text operations: whitespace, trimming by a class of
//! characters, and building strings out of character ranges.

use vstd::prelude::*;

verus! {

/// Unicode `White_Space`, the property that `char::is_whitespace` and
/// `str::trim` go by.
pub open spec fn is_white_space(c: char) -> bool {
    let n = c as u32;
    ||| (9 <= n && n <= 13)
    ||| n == 32
    ||| n == 0x85
    ||| n == 0xa0
    ||| n == 0x1680
    ||| (0x2000 <= n && n <= 0x200a)
    ||| n == 0x2028
    ||| n == 0x2029
    ||| n == 0x202f
    ||| n == 0x205f
    ||| n == 0x3000
}

/// The classes of characters that values and lines are trimmed of.
#[derive(Clone, Copy, PartialEq, Eq, Debug)]
pub enum CharClass {
    /// Unicode whitespace.
    WhiteSpace,
    /// The comma that separates values on the command line.
    Comma,
    /// Round and square brackets around a status code.
    Bracket,
    /// Every character but whitespace: the characters of a word.
    Word,
    /// Every character but the line feed: the characters of a line.
    LineChar,
}

pub open spec fn in_class(cls: CharClass, c: char) -> bool {
    match cls {
        CharClass::WhiteSpace => is_white_space(c),
        CharClass::Comma => c == ',',
        CharClass::Bracket => c == '(' || c == ')' || c == '[' || c == ']',
        CharClass::Word => !is_white_space(c),
        CharClass::LineChar => c != '\n',
    }
}

/// The length of the longest prefix of `s` made of characters of the class.
pub open spec fn span(s: Seq<char>, cls: CharClass) -> nat
    decreases s.len(),
{
    if s.len() > 0 && in_class(cls, s[0]) {
        1 + span(s.drop_first(), cls)
    } else {
        0
    }
}

/// `s` without its longest prefix of characters of the class.
pub open spec fn skip_leading(s: Seq<char>, cls: CharClass) -> Seq<char>
    decreases s.len(),
{
    if s.len() > 0 && in_class(cls, s[0]) {
        skip_leading(s.drop_first(), cls)
    } else {
        s
    }
}

/// `s` without its longest suffix of characters of the class.
pub open spec fn skip_trailing(s: Seq<char>, cls: CharClass) -> Seq<char>
    decreases s.len(),
{
    if s.len() > 0 && in_class(cls, s.last()) {
        skip_trailing(s.drop_last(), cls)
    } else {
        s
    }
}

/// `s` with the characters of the class removed from both ends.
pub open spec fn trim_class(s: Seq<char>, cls: CharClass) -> Seq<char> {
    skip_trailing(skip_leading(s, cls), cls)
}

/// What `str::trim` gives back.
pub open spec fn trim(s: Seq<char>) -> Seq<char> {
    trim_class(s, CharClass::WhiteSpace)
}

pub fn is_white_space_char(c: char) -> (b: bool)
    ensures
        b == is_white_space(c),
{
    let n = c as u32;
    (9 <= n && n <= 13) || n == 32 || n == 0x85 || n == 0xa0 || n == 0x1680 || (0x2000 <= n && n
        <= 0x200a) || n == 0x2028 || n == 0x2029 || n == 0x202f || n == 0x205f || n == 0x3000
}

pub fn in_class_char(cls: CharClass, c: char) -> (b: bool)
    ensures
        b == in_class(cls, c),
{
    match cls {
        CharClass::WhiteSpace => is_white_space_char(c),
        CharClass::Comma => c == ',',
        CharClass::Bracket => c == '(' || c == ')' || c == '[' || c == ']',
        CharClass::Word => !is_white_space_char(c),
        CharClass::LineChar => c != '\n',
    }
}

proof fn lemma_span(s: Seq<char>, cls: CharClass, i: int)
    requires
        0 <= i <= s.len(),
        forall|k: int| 0 <= k < i ==> in_class(cls, #[trigger] s[k]),
        i == s.len() || !in_class(cls, s[i]),
    ensures
        span(s, cls) == i,
    decreases i,
{
    if i > 0 {
        let t = s.drop_first();
        assert forall|k: int| 0 <= k < i - 1 implies in_class(cls, #[trigger] t[k]) by {
            assert(t[k] == s[k + 1]);
        }
        if i - 1 < t.len() {
            assert(t[i - 1] == s[i]);
        }
        lemma_span(t, cls, i - 1);
    }
}

/// The end of the longest run of characters of the class that starts at
/// `from` in `v[from..to]`.
pub fn span_end(v: &Vec<char>, from: usize, to: usize, cls: CharClass) -> (e: usize)
    requires
        from <= to <= v@.len(),
    ensures
        from <= e <= to,
        e == from + span(v@.subrange(from as int, to as int), cls),
{
    let mut e = from;
    while e < to && in_class_char(cls, v[e])
        invariant
            from <= e <= to <= v@.len(),
            forall|k: int| from <= k < e ==> in_class(cls, #[trigger] v@[k]),
        decreases to - e,
    {
        e = e + 1;
    }
    proof {
        let s = v@.subrange(from as int, to as int);
        assert forall|k: int| 0 <= k < e - from implies in_class(cls, #[trigger] s[k]) by {
            assert(s[k] == v@[from + k]);
        }
        if e < to {
            assert(s[e - from] == v@[e as int]);
        }
        lemma_span(s, cls, e - from);
    }
    e
}

proof fn lemma_skip_leading(s: Seq<char>, cls: CharClass, i: int)
    requires
        0 <= i <= s.len(),
        forall|k: int| 0 <= k < i ==> in_class(cls, #[trigger] s[k]),
        i == s.len() || !in_class(cls, s[i]),
    ensures
        skip_leading(s, cls) == s.subrange(i, s.len() as int),
    decreases i,
{
    if i > 0 {
        let t = s.drop_first();
        assert forall|k: int| 0 <= k < i - 1 implies in_class(cls, #[trigger] t[k]) by {
            assert(t[k] == s[k + 1]);
        }
        if i - 1 < t.len() {
            assert(t[i - 1] == s[i]);
        }
        lemma_skip_leading(t, cls, i - 1);
        assert(t.subrange(i - 1, t.len() as int) =~= s.subrange(i, s.len() as int));
    } else {
        assert(s.subrange(0, s.len() as int) =~= s);
    }
}

proof fn lemma_skip_trailing(s: Seq<char>, cls: CharClass, j: int)
    requires
        0 <= j <= s.len(),
        forall|k: int| j <= k < s.len() ==> in_class(cls, #[trigger] s[k]),
        j == 0 || !in_class(cls, s[j - 1]),
    ensures
        skip_trailing(s, cls) == s.subrange(0, j),
    decreases s.len() - j,
{
    if j < s.len() {
        let t = s.drop_last();
        assert forall|k: int| j <= k < t.len() implies in_class(cls, #[trigger] t[k]) by {
            assert(t[k] == s[k]);
        }
        if j > 0 {
            assert(t[j - 1] == s[j - 1]);
        }
        assert(in_class(cls, s[s.len() - 1]));
        lemma_skip_trailing(t, cls, j);
        assert(t.subrange(0, j) =~= s.subrange(0, j));
    } else {
        assert(s.subrange(0, j) =~= s);
    }
}

proof fn lemma_skip_leading_stops(s: Seq<char>, cls: CharClass, k: int)
    requires
        0 <= k < s.len(),
        !in_class(cls, s[k]),
    ensures
        skip_leading(s, cls).len() > 0,
        !in_class(cls, skip_leading(s, cls)[0]),
    decreases s.len(),
{
    if in_class(cls, s[0]) {
        assert(k > 0);
        assert(s.drop_first()[k - 1] == s[k]);
        lemma_skip_leading_stops(s.drop_first(), cls, k - 1);
    }
}

proof fn lemma_skip_trailing_keeps_head(s: Seq<char>, cls: CharClass)
    requires
        s.len() > 0,
        !in_class(cls, s[0]),
    ensures
        skip_trailing(s, cls).len() > 0,
        skip_trailing(s, cls)[0] == s[0],
    decreases s.len(),
{
    if in_class(cls, s.last()) {
        assert(s.len() > 1);
        assert(s.drop_last()[0] == s[0]);
        lemma_skip_trailing_keeps_head(s.drop_last(), cls);
    }
}

/// A string that holds a character outside the class keeps, once trimmed
/// of the class, a first character outside the class.
pub proof fn lemma_trim_class_head(s: Seq<char>, cls: CharClass, k: int)
    requires
        0 <= k < s.len(),
        !in_class(cls, s[k]),
    ensures
        trim_class(s, cls).len() > 0,
        !in_class(cls, trim_class(s, cls)[0]),
{
    lemma_skip_leading_stops(s, cls, k);
    lemma_skip_trailing_keeps_head(skip_leading(s, cls), cls);
}

/// The bounds of `v[lo..hi]` once the class is trimmed from both of its ends.
pub fn trim_bounds(v: &Vec<char>, lo: usize, hi: usize, cls: CharClass) -> (r: (usize, usize))
    requires
        lo <= hi <= v@.len(),
    ensures
        lo <= r.0 <= r.1 <= hi,
        v@.subrange(r.0 as int, r.1 as int) == trim_class(v@.subrange(lo as int, hi as int), cls),
{
    let mut a = lo;
    while a < hi && in_class_char(cls, v[a])
        invariant
            lo <= a <= hi <= v@.len(),
            forall|k: int| lo <= k < a ==> in_class(cls, #[trigger] v@[k]),
        decreases hi - a,
    {
        a = a + 1;
    }
    let mut b = hi;
    while b > a && in_class_char(cls, v[b - 1])
        invariant
            lo <= a <= b <= hi <= v@.len(),
            forall|k: int| b <= k < hi ==> in_class(cls, #[trigger] v@[k]),
        decreases b - a,
    {
        b = b - 1;
    }
    proof {
        let s = v@.subrange(lo as int, hi as int);
        assert forall|k: int| 0 <= k < a - lo implies in_class(cls, #[trigger] s[k]) by {
            assert(s[k] == v@[lo + k]);
        }
        if a < hi {
            assert(s[a - lo] == v@[a as int]);
        }
        lemma_skip_leading(s, cls, a - lo);
        let t = v@.subrange(a as int, hi as int);
        assert(s.subrange(a - lo, s.len() as int) =~= t);
        assert forall|k: int| b - a <= k < t.len() implies in_class(cls, #[trigger] t[k]) by {
            assert(t[k] == v@[a + k]);
        }
        if b > a {
            assert(t[b - a - 1] == v@[b - 1]);
        }
        lemma_skip_trailing(t, cls, b - a);
        assert(t.subrange(0, b - a) =~= v@.subrange(a as int, b as int));
    }
    (a, b)
}

/// Appends a character to a string (`String::push`).
#[verifier::external_body]
fn push_char(s: &mut String, c: char)
    ensures
        final(s)@ == old(s)@.push(c),
{
    s.push(c);
}

/// The characters of a string slice, in order.
pub fn chars_of(s: &str) -> (v: Vec<char>)
    ensures
        v@ == s@,
{
    let mut v: Vec<char> = Vec::new();
    for c in it: s.chars()
        invariant
            it.seq() == s@,
            v@ == it.seq().take(it.index()),
    {
        v.push(c);
    }
    v
}

/// The string made of the characters `v[lo..hi]`.
pub fn string_of(v: &Vec<char>, lo: usize, hi: usize) -> (s: String)
    requires
        lo <= hi <= v@.len(),
    ensures
        s@ == v@.subrange(lo as int, hi as int),
{
    let mut s = String::new();
    let mut i = lo;
    while i < hi
        invariant
            lo <= i <= hi <= v@.len(),
            s@ == v@.subrange(lo as int, i as int),
        decreases hi - i,
    {
        push_char(&mut s, v[i]);
        assert(v@.subrange(lo as int, i + 1) =~= v@.subrange(lo as int, i as int).push(v@[i as int]));
        i = i + 1;
    }
    s
}

/// The decimal digit `d`.
pub open spec fn digit(d: nat) -> char {
    if d == 0 {
        '0'
    } else if d == 1 {
        '1'
    } else if d == 2 {
        '2'
    } else if d == 3 {
        '3'
    } else if d == 4 {
        '4'
    } else if d == 5 {
        '5'
    } else if d == 6 {
        '6'
    } else if d == 7 {
        '7'
    } else if d == 8 {
        '8'
    } else {
        '9'
    }
}

/// `n` written in decimal, without leading zeros.
pub open spec fn decimal(n: nat) -> Seq<char>
    decreases n,
{
    if n < 10 {
        seq![digit(n)]
    } else {
        decimal(n / 10).push(digit(n % 10))
    }
}

fn digit_char(d: u32) -> (c: char)
    requires
        d < 10,
    ensures
        c == digit(d as nat),
{
    if d == 0 {
        '0'
    } else if d == 1 {
        '1'
    } else if d == 2 {
        '2'
    } else if d == 3 {
        '3'
    } else if d == 4 {
        '4'
    } else if d == 5 {
        '5'
    } else if d == 6 {
        '6'
    } else if d == 7 {
        '7'
    } else if d == 8 {
        '8'
    } else {
        '9'
    }
}

/// Appends `n` written in decimal to `out`.
pub fn push_decimal(out: &mut String, n: u32)
    ensures
        final(out)@ == old(out)@ + decimal(n as nat),
    decreases n,
{
    if n >= 10 {
        push_decimal(out, n / 10);
    }
    push_char(out, digit_char(n % 10));
    assert(decimal(n as nat) == (if n < 10 {
        seq![digit(n as nat)]
    } else {
        decimal((n / 10) as nat).push(digit((n % 10) as nat))
    }));
}

proof fn lemma_decimal_len(n: nat)
    ensures
        decimal(n).len() >= 1,
        n >= 10 ==> decimal(n).len() >= 2,
    decreases n,
{
    if n >= 10 {
        lemma_decimal_len(n / 10);
    }
}

/// Different numbers are written differently.
pub proof fn lemma_decimal_injective(a: nat, b: nat)
    requires
        decimal(a) == decimal(b),
    ensures
        a == b,
    decreases a,
{
    lemma_decimal_len(a);
    lemma_decimal_len(b);
    if a >= 10 && b >= 10 {
        let da = decimal(a);
        assert(da.drop_last() == decimal(a / 10));
        assert(decimal(b).drop_last() == decimal(b / 10));
        assert(da.last() == digit(a % 10));
        assert(decimal(b).last() == digit(b % 10));
        lemma_decimal_injective(a / 10, b / 10);
    } else if a < 10 && b >= 10 {
        assert(decimal(a).len() == 1);
    } else if a >= 10 && b < 10 {
        assert(decimal(b).len() == 1);
    } else {
        assert(decimal(a)[0] == digit(a));
        assert(decimal(b)[0] == digit(b));
    }
}

/// The longest prefix of characters of the class: every character in it is
/// of the class, and the one after it, if any, is not.
pub proof fn lemma_span_bounds(s: Seq<char>, cls: CharClass)
    ensures
        span(s, cls) <= s.len(),
        forall|k: int| 0 <= k < span(s, cls) ==> in_class(cls, #[trigger] s[k]),
        span(s, cls) < s.len() ==> !in_class(cls, s[span(s, cls) as int]),
    decreases s.len(),
{
    if s.len() > 0 && in_class(cls, s[0]) {
        let t = s.drop_first();
        lemma_span_bounds(t, cls);
        assert forall|k: int| 0 <= k < span(s, cls) implies in_class(cls, #[trigger] s[k]) by {
            if k > 0 {
                assert(s[k] == t[k - 1]);
            }
        }
        if span(s, cls) < s.len() {
            assert(s[span(s, cls) as int] == t[span(t, cls) as int]);
        }
    }
}

proof fn lemma_skip_trailing_bounds(s: Seq<char>, cls: CharClass)
    ensures
        exists|j: int|
            0 <= j <= s.len() && skip_trailing(s, cls) == s.subrange(0, j) && (forall|k: int|
                j <= k < s.len() ==> in_class(cls, #[trigger] s[k])) && (j > 0 ==> !in_class(
                cls,
                s[j - 1],
            )),
    decreases s.len(),
{
    if s.len() > 0 && in_class(cls, s.last()) {
        let t = s.drop_last();
        lemma_skip_trailing_bounds(t, cls);
        let j = choose|j: int|
            0 <= j <= t.len() && skip_trailing(t, cls) == t.subrange(0, j) && (forall|k: int|
                j <= k < t.len() ==> in_class(cls, #[trigger] t[k])) && (j > 0 ==> !in_class(
                cls,
                t[j - 1],
            ));
        assert(t.subrange(0, j) =~= s.subrange(0, j));
        assert forall|k: int| j <= k < s.len() implies in_class(cls, #[trigger] s[k]) by {
            if k < t.len() {
                assert(s[k] == t[k]);
            }
        }
        if j > 0 {
            assert(s[j - 1] == t[j - 1]);
        }
    } else {
        assert(s.subrange(0, s.len() as int) =~= s);
    }
}

/// Trimming the class keeps a contiguous part of the string: everything
/// dropped before and after it is of the class, and, when it is not empty,
/// its first and last characters are not.
pub proof fn lemma_trim_class_bounds(s: Seq<char>, cls: CharClass)
    ensures
        exists|a: int, b: int|
            0 <= a <= b <= s.len() && trim_class(s, cls) == s.subrange(a, b) && (forall|k: int|
                0 <= k < a ==> in_class(cls, #[trigger] s[k])) && (forall|k: int|
                b <= k < s.len() ==> in_class(cls, #[trigger] s[k])) && (a < b ==> !in_class(
                cls,
                s[a],
            ) && !in_class(cls, s[b - 1])),
{
    lemma_span_bounds(s, cls);
    let a = span(s, cls) as int;
    lemma_skip_leading(s, cls, a);
    let t = s.subrange(a, s.len() as int);
    lemma_skip_trailing_bounds(t, cls);
    let j = choose|j: int|
        0 <= j <= t.len() && skip_trailing(t, cls) == t.subrange(0, j) && (forall|k: int|
            j <= k < t.len() ==> in_class(cls, #[trigger] t[k])) && (j > 0 ==> !in_class(
            cls,
            t[j - 1],
        ));
    let b = a + j;
    assert(t.subrange(0, j) =~= s.subrange(a, b));
    assert forall|k: int| b <= k < s.len() implies in_class(cls, #[trigger] s[k]) by {
        assert(s[k] == t[k - a]);
    }
    if a < b {
        assert(s[b - 1] == t[j - 1]);
    }
}

} // verus!
