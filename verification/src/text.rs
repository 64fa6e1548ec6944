//! Text primitives over sequences of Unicode scalar values: whitespace,
//! tokenising, line splitting, trimming, searching and decimal parsing, each
//! with the meaning that the corresponding `str` operation of std has.
use vstd::prelude::*;

verus! {

/// The Unicode `White_Space` property, which `char::is_whitespace` tests.
pub open spec fn is_ws(c: char) -> bool {
    let u = c as u32;
    ||| (0x09 <= u && u <= 0x0D)
    ||| u == 0x20
    ||| u == 0x85
    ||| u == 0xA0
    ||| u == 0x1680
    ||| (0x2000 <= u && u <= 0x200A)
    ||| u == 0x2028
    ||| u == 0x2029
    ||| u == 0x202F
    ||| u == 0x205F
    ||| u == 0x3000
}

/// The maximal runs of non-whitespace characters of `s`, in order: what
/// `str::split_whitespace` yields.
pub open spec fn words(s: Seq<char>) -> Seq<Seq<char>>
    decreases s.len(),
{
    if s.len() == 0 {
        seq![]
    } else {
        let p = s.drop_last();
        let c = s.last();
        let w = words(p);
        if is_ws(c) {
            w
        } else if p.len() > 0 && !is_ws(p.last()) && w.len() > 0 {
            w.update(w.len() - 1, w.last().push(c))
        } else {
            w.push(seq![c])
        }
    }
}

/// The pieces of `s` that `str::split_inclusive('\n')` yields: each ends
/// with its newline, but the last one may have none.
pub open spec fn line_pieces(s: Seq<char>) -> Seq<Seq<char>>
    decreases s.len(),
{
    if s.len() == 0 {
        seq![]
    } else {
        let p = s.drop_last();
        let c = s.last();
        let w = line_pieces(p);
        if p.len() == 0 || p.last() == '\n' || w.len() == 0 {
            w.push(seq![c])
        } else {
            w.update(w.len() - 1, w.last().push(c))
        }
    }
}

/// A piece without its line terminator: a final `"\n"` or `"\r\n"`.
pub open spec fn strip_eol(l: Seq<char>) -> Seq<char> {
    if l.len() > 0 && l.last() == '\n' {
        let m = l.drop_last();
        if m.len() > 0 && m.last() == '\r' {
            m.drop_last()
        } else {
            m
        }
    } else {
        l
    }
}

/// The lines of `s` as `str::lines` yields them.
pub open spec fn lines(s: Seq<char>) -> Seq<Seq<char>> {
    line_pieces(s).map_values(|l: Seq<char>| strip_eol(l))
}

proof fn lemma_line_pieces_nonempty(s: Seq<char>)
    ensures
        s.len() > 0 ==> line_pieces(s).len() > 0,
    decreases s.len(),
{
    if s.len() > 0 {
        lemma_line_pieces_nonempty(s.drop_last());
    }
}

proof fn lemma_line_pieces_append(a: Seq<char>, b: Seq<char>)
    requires
        a.len() == 0 || a.last() == '\n',
    ensures
        line_pieces(a + b) == line_pieces(a) + line_pieces(b),
    decreases b.len(),
{
    if b.len() == 0 {
        assert(a + b =~= a);
        assert(line_pieces(a) + line_pieces(b) =~= line_pieces(a));
    } else {
        let s = a + b;
        let bp = b.drop_last();
        assert(s.drop_last() =~= a + bp);
        assert(s.last() == b.last());
        lemma_line_pieces_append(a, bp);
        lemma_line_pieces_nonempty(bp);
        let w = line_pieces(a) + line_pieces(bp);
        let c = b.last();
        if bp.len() == 0 {
            assert(a + bp =~= a);
            assert(line_pieces(bp) =~= Seq::<Seq<char>>::empty());
            assert(line_pieces(b) =~= seq![seq![c]]);
            assert(line_pieces(s) =~= line_pieces(a).push(seq![c]));
            assert(line_pieces(a).push(seq![c]) =~= line_pieces(a) + line_pieces(b));
        } else {
            assert((a + bp).last() == bp.last());
            let wb = line_pieces(bp);
            if bp.last() == '\n' {
                assert(line_pieces(s) =~= w.push(seq![c]));
                assert(line_pieces(b) =~= wb.push(seq![c]));
                assert(w.push(seq![c]) =~= line_pieces(a) + wb.push(seq![c]));
            } else {
                assert(line_pieces(s) =~= w.update(w.len() - 1, w.last().push(c)));
                assert(line_pieces(b) =~= wb.update(wb.len() - 1, wb.last().push(c)));
                assert(w.last() == wb.last());
                assert(w.update(w.len() - 1, w.last().push(c)) =~= line_pieces(a) + wb.update(
                    wb.len() - 1,
                    wb.last().push(c),
                ));
            }
        }
    }
}

/// Trimming the start drops exactly the leading whitespace: what is left is
/// a suffix of `s` that is empty or begins with a non-whitespace character,
/// and every character dropped is whitespace.
pub proof fn lemma_trim_start(s: Seq<char>)
    ensures
        trim_start(s).len() <= s.len(),
        trim_start(s) == s.subrange(s.len() - trim_start(s).len(), s.len() as int),
        trim_start(s).len() > 0 ==> !is_ws(trim_start(s)[0]),
        forall|i: int| 0 <= i < s.len() - trim_start(s).len() ==> is_ws(#[trigger] s[i]),
    decreases s.len(),
{
    if s.len() > 0 && is_ws(s[0]) {
        lemma_trim_start(s.drop_first());
        let t = trim_start(s.drop_first());
        assert(s.drop_first().subrange(s.drop_first().len() - t.len(), s.drop_first().len() as int) =~= s.subrange(
            s.len() - t.len(),
            s.len() as int,
        ));
        assert forall|i: int| 0 <= i < s.len() - t.len() implies is_ws(#[trigger] s[i]) by {
            if i > 0 {
                assert(s[i] == s.drop_first()[i - 1]);
            }
        }
    } else {
        assert(s.subrange(0, s.len() as int) =~= s);
    }
}

/// Trimming the end drops exactly the trailing whitespace: what is left is
/// a prefix of `s` that is empty or ends with a non-whitespace character,
/// and every character dropped is whitespace.
pub proof fn lemma_trim_end(s: Seq<char>)
    ensures
        trim_end(s).len() <= s.len(),
        trim_end(s) == s.take(trim_end(s).len() as int),
        trim_end(s).len() > 0 ==> !is_ws(trim_end(s).last()),
        forall|i: int| trim_end(s).len() <= i < s.len() ==> is_ws(#[trigger] s[i]),
    decreases s.len(),
{
    if s.len() > 0 && is_ws(s.last()) {
        lemma_trim_end(s.drop_last());
        let t = trim_end(s.drop_last());
        assert(s.drop_last().take(t.len() as int) =~= s.take(t.len() as int));
        assert forall|i: int| t.len() <= i < s.len() implies is_ws(#[trigger] s[i]) by {
            if i < s.len() - 1 {
                assert(s[i] == s.drop_last()[i]);
            }
        }
    } else {
        assert(s.take(s.len() as int) =~= s);
    }
}

/// What parses as an unsigned number: never the empty text or a text
/// beginning with `-`; a parsed text is an optional `+` and then digits only,
/// whose value is at most `max`; and a leading `+` changes nothing.
pub proof fn lemma_parse_unsigned(s: Seq<char>, max: nat)
    ensures
        s.len() == 0 ==> parse_unsigned(s, max) is None,
        s.len() > 0 && s[0] == '-' ==> parse_unsigned(s, max) is None,
        parse_unsigned(s, max) matches Some(v) ==> v <= max && all_digits(unsigned_digits(s))
            && unsigned_digits(s).len() > 0,
        s.len() > 0 && s[0] != '+' ==> parse_unsigned(seq!['+'] + s, max) == parse_unsigned(s, max),
{
    if s.len() > 0 && s[0] != '+' {
        assert((seq!['+'] + s).drop_first() =~= s);
    }
    if s.len() > 0 && s[0] == '-' {
        assert(!is_digit('-'));
    }
}

/// The lines of two texts, the first of which is empty or ends in a
/// newline, are the lines of the first followed by those of the second.
pub proof fn lemma_lines_append(a: Seq<char>, b: Seq<char>)
    requires
        a.len() == 0 || a.last() == '\n',
    ensures
        lines(a + b) == lines(a) + lines(b),
{
    lemma_line_pieces_append(a, b);
    assert(lines(a + b) =~= lines(a) + lines(b));
}

/// `s` without its leading whitespace (`str::trim_start`).
pub open spec fn trim_start(s: Seq<char>) -> Seq<char>
    decreases s.len(),
{
    if s.len() > 0 && is_ws(s[0]) {
        trim_start(s.drop_first())
    } else {
        s
    }
}

/// `s` without its trailing whitespace (`str::trim_end`).
pub open spec fn trim_end(s: Seq<char>) -> Seq<char>
    decreases s.len(),
{
    if s.len() > 0 && is_ws(s.last()) {
        trim_end(s.drop_last())
    } else {
        s
    }
}

/// `s` without leading and trailing whitespace (`str::trim`).
pub open spec fn trim(s: Seq<char>) -> Seq<char> {
    trim_end(trim_start(s))
}

/// The index of the first `c` in `s` (`str::find` with a `char`).
pub open spec fn find_char(s: Seq<char>, c: char) -> Option<int>
    decreases s.len(),
{
    if s.len() == 0 {
        None
    } else if s[0] == c {
        Some(0)
    } else {
        match find_char(s.drop_first(), c) {
            Some(i) => Some(i + 1),
            None => None,
        }
    }
}

/// The index of the last `c` in `s` (`str::rfind` with a `char`).
pub open spec fn rfind_char(s: Seq<char>, c: char) -> Option<int>
    decreases s.len(),
{
    if s.len() == 0 {
        None
    } else if s.last() == c {
        Some(s.len() - 1)
    } else {
        rfind_char(s.drop_last(), c)
    }
}

/// `s` begins with `p` (`str::starts_with`).
pub open spec fn starts_with(s: Seq<char>, p: Seq<char>) -> bool {
    p.len() <= s.len() && s.subrange(0, p.len() as int) == p
}

/// `q` occurs in `s` as a contiguous block (`str::contains` with a `&str`).
pub open spec fn contains_seq(s: Seq<char>, q: Seq<char>) -> bool {
    exists|i: int| 0 <= i && i + q.len() <= s.len() && #[trigger] s.subrange(i, i + q.len()) == q
}

pub open spec fn is_digit(c: char) -> bool {
    '0' <= c && c <= '9'
}

pub open spec fn all_digits(s: Seq<char>) -> bool {
    forall|i: int| 0 <= i < s.len() ==> is_digit(#[trigger] s[i])
}

/// The number that a sequence of decimal digits denotes.
pub open spec fn digits_value(s: Seq<char>) -> nat
    decreases s.len(),
{
    if s.len() == 0 {
        0
    } else {
        digits_value(s.drop_last()) * 10 + ((s.last() as int - '0' as int) as nat)
    }
}

/// The digits that the `FromStr` of an unsigned integer reads: an optional
/// leading `+` is skipped.
pub open spec fn unsigned_digits(s: Seq<char>) -> Seq<char> {
    if s.len() > 0 && s[0] == '+' {
        s.drop_first()
    } else {
        s
    }
}

/// What `s.parse::<T>()` gives for an unsigned `T` whose largest value is
/// `max`: the number when `s` is an optional `+` then at least one decimal
/// digit and nothing else, and the number is at most `max`.
pub open spec fn parse_unsigned(s: Seq<char>, max: nat) -> Option<nat> {
    let d = unsigned_digits(s);
    if d.len() > 0 && all_digits(d) && digits_value(d) <= max {
        Some(digits_value(d))
    } else {
        None
    }
}

/// `s.parse::<u64>().ok()`.
pub open spec fn parse_u64_spec(s: Seq<char>) -> Option<u64> {
    match parse_unsigned(s, u64::MAX as nat) {
        Some(v) => Some(v as u64),
        None => None,
    }
}

/// `s.parse::<u32>().ok()`.
pub open spec fn parse_u32_spec(s: Seq<char>) -> Option<u32> {
    match parse_unsigned(s, u32::MAX as nat) {
        Some(v) => Some(v as u32),
        None => None,
    }
}

/// `s.parse::<u64>().ok().unwrap_or(0)`.
pub open spec fn parse_u64_or_zero(s: Seq<char>) -> u64 {
    match parse_u64_spec(s) {
        Some(v) => v,
        None => 0,
    }
}

/// The `i`-th word of `w`, parsed as a `u64`, or 0 where it is missing or does
/// not parse: `iter.nth(i).and_then(|v| v.parse().ok()).unwrap_or(0)`.
pub open spec fn nth_u64_or_zero(w: Seq<Seq<char>>, i: int) -> u64 {
    if 0 <= i < w.len() {
        parse_u64_or_zero(w[i])
    } else {
        0
    }
}

/// The `i`-th word of `w`, parsed as a `u32`, or 0.
pub open spec fn nth_u32_or_zero(w: Seq<Seq<char>>, i: int) -> u32 {
    if 0 <= i < w.len() {
        match parse_u32_spec(w[i]) {
            Some(v) => v,
            None => 0,
        }
    } else {
        0
    }
}

/// The words after the first `k` (`iter.skip(k)`).
pub open spec fn skip_words(w: Seq<Seq<char>>, k: int) -> Seq<Seq<char>> {
    if k >= w.len() {
        seq![]
    } else {
        w.skip(k)
    }
}

/// The words joined by single spaces (`join(" ")`).
pub open spec fn join_spaced(w: Seq<Seq<char>>) -> Seq<char>
    decreases w.len(),
{
    if w.len() == 0 {
        seq![]
    } else if w.len() == 1 {
        w[0]
    } else {
        join_spaced(w.drop_last()) + seq![' '] + w.last()
    }
}

// ---------------------------------------------------------------------------
// Executable operations
// ---------------------------------------------------------------------------

/// `char::is_whitespace`.
pub fn is_whitespace(c: char) -> (b: bool)
    ensures
        b == is_ws(c),
{
    let u = c as u32;
    (0x09 <= u && u <= 0x0D) || u == 0x20 || u == 0x85 || u == 0xA0 || u == 0x1680 || (0x2000
        <= u && u <= 0x200A) || u == 0x2028 || u == 0x2029 || u == 0x202F || u == 0x205F || u
        == 0x3000
}

/// The characters of `s`, in order.
pub fn to_chars(s: &str) -> (v: Vec<char>)
    ensures
        v@ == s@,
{
    let mut v: Vec<char> = Vec::new();
    for c in it: s.chars()
        invariant
            it.seq() == s@,
            v@ == s@.take(it.index() as int),
    {
        v.push(c);
        proof {
            assert(s@.take(it.index() + 1) =~= s@.take(it.index() as int).push(c));
        }
    }
    assert(v@ =~= s@);
    v
}

/// Appends one character to a `String` (`String::push`).
#[verifier::external_body]
pub(crate) fn push_char(s: &mut String, c: char)
    ensures
        final(s)@ == old(s)@.push(c),
{
    s.push(c);
}

/// A `String` holding `s[lo..hi]`.
pub fn string_of(s: &Vec<char>, lo: usize, hi: usize) -> (r: String)
    requires
        lo <= hi <= s.len(),
    ensures
        r@ == s@.subrange(lo as int, hi as int),
{
    let mut r = String::new();
    let mut i = lo;
    while i < hi
        invariant
            lo <= i <= hi <= s.len(),
            r@ == s@.subrange(lo as int, i as int),
        decreases hi - i,
    {
        push_char(&mut r, s[i]);
        proof {
            assert(s@.subrange(lo as int, i + 1) =~= s@.subrange(lo as int, i as int).push(s@[i as int]));
        }
        i += 1;
    }
    r
}

pub proof fn lemma_find_char_range(s: Seq<char>, c: char)
    ensures
        find_char(s, c) matches Some(i) ==> 0 <= i < s.len() && s[i] == c,
    decreases s.len(),
{
    if s.len() > 0 && s[0] != c {
        lemma_find_char_range(s.drop_first(), c);
    }
}

pub proof fn lemma_rfind_char_range(s: Seq<char>, c: char)
    ensures
        rfind_char(s, c) matches Some(i) ==> 0 <= i < s.len() && s[i] == c,
    decreases s.len(),
{
    if s.len() > 0 && s.last() != c {
        lemma_rfind_char_range(s.drop_last(), c);
    }
}

/// `find_char` gives the first occurrence of `c`, and nothing where `c`
/// does not occur.
pub proof fn lemma_find_char_first(s: Seq<char>, c: char)
    ensures
        find_char(s, c) matches Some(i) ==> 0 <= i < s.len() && s[i] == c && forall|j: int| 0 <= j < i ==> s[j] != c,
        find_char(s, c) is None ==> forall|j: int| 0 <= j < s.len() ==> s[j] != c,
    decreases s.len(),
{
    if s.len() > 0 && s[0] != c {
        lemma_find_char_first(s.drop_first(), c);
        assert forall|j: int| 0 < j < s.len() implies s[j] == s.drop_first()[j - 1] by {}
    }
}

/// `rfind_char` gives the last occurrence of `c`, and nothing where `c`
/// does not occur.
pub proof fn lemma_rfind_char_last(s: Seq<char>, c: char)
    ensures
        rfind_char(s, c) matches Some(i) ==> 0 <= i < s.len() && s[i] == c && forall|j: int| i < j < s.len() ==> s[j] != c,
        rfind_char(s, c) is None ==> forall|j: int| 0 <= j < s.len() ==> s[j] != c,
    decreases s.len(),
{
    if s.len() > 0 && s.last() != c {
        lemma_rfind_char_last(s.drop_last(), c);
        assert forall|j: int| 0 <= j < s.len() - 1 implies s[j] == s.drop_last()[j] by {}
    }
}

/// The index of the first `c` in `s[lo..hi]`, counted from `lo`.
pub fn find_in(s: &Vec<char>, lo: usize, hi: usize, c: char) -> (r: Option<usize>)
    requires
        lo <= hi <= s.len(),
    ensures
        match find_char(s@.subrange(lo as int, hi as int), c) {
            Some(i) => r matches Some(j) && j == lo + i,
            None => r is None,
        },
        r matches Some(i) ==> lo <= i < hi && s@[i as int] == c,
{
    proof {
        lemma_find_char_range(s@.subrange(lo as int, hi as int), c);
    }
    let mut i = lo;
    while i < hi
        invariant
            lo <= i <= hi <= s.len(),
            find_char(s@.subrange(lo as int, hi as int), c) == match find_char(
                s@.subrange(i as int, hi as int),
                c,
            ) {
                Some(k) => Some(k + (i - lo)),
                None => None::<int>,
            },
        decreases hi - i,
    {
        assert(s@.subrange(i as int, hi as int).drop_first() =~= s@.subrange(i + 1, hi as int));
        if s[i] == c {
            return Some(i);
        }
        i += 1;
    }
    None
}

/// The index of the last `c` in `s[lo..hi]`, counted from `lo`.
pub fn rfind_in(s: &Vec<char>, lo: usize, hi: usize, c: char) -> (r: Option<usize>)
    requires
        lo <= hi <= s.len(),
    ensures
        match rfind_char(s@.subrange(lo as int, hi as int), c) {
            Some(i) => r matches Some(j) && j == lo + i,
            None => r is None,
        },
        r matches Some(i) ==> lo <= i < hi && s@[i as int] == c,
{
    proof {
        lemma_rfind_char_range(s@.subrange(lo as int, hi as int), c);
    }
    let mut i = hi;
    while i > lo
        invariant
            lo <= i <= hi <= s.len(),
            rfind_char(s@.subrange(lo as int, hi as int), c) == rfind_char(
                s@.subrange(lo as int, i as int),
                c,
            ),
        decreases i - lo,
    {
        assert(s@.subrange(lo as int, i as int).drop_last() =~= s@.subrange(lo as int, i - 1));
        if s[i - 1] == c {
            return Some(i - 1);
        }
        i -= 1;
    }
    None
}

proof fn lemma_words_last_open(s: Seq<char>)
    requires
        s.len() > 0,
        !is_ws(s.last()),
    ensures
        words(s).len() > 0,
    decreases s.len(),
{
    let p = s.drop_last();
    if p.len() > 0 && !is_ws(p.last()) {
        lemma_words_last_open(p);
    }
}

/// The ranges `(start, end)` of the words of `s[lo..hi]`, in order.
pub fn word_ranges(s: &Vec<char>, lo: usize, hi: usize) -> (r: Vec<(usize, usize)>)
    requires
        lo <= hi <= s.len(),
    ensures
        r@.len() == words(s@.subrange(lo as int, hi as int)).len(),
        forall|k: int|
            0 <= k < r@.len() ==> {
                &&& lo <= (#[trigger] r@[k]).0 <= r@[k].1 <= hi
                &&& s@.subrange(r@[k].0 as int, r@[k].1 as int) == words(
                    s@.subrange(lo as int, hi as int),
                )[k]
            },
{
    let ghost t = s@.subrange(lo as int, hi as int);
    let mut r: Vec<(usize, usize)> = Vec::new();
    let mut i = lo;
    let mut start = lo;
    let mut open = false;
    while i < hi
        invariant
            lo <= start <= i <= hi <= s.len(),
            t == s@.subrange(lo as int, hi as int),
            open ==> i > lo && !is_ws(s@[i - 1]),
            !open ==> (i == lo || is_ws(s@[i - 1])),
            open ==> words(t.take(i - lo)).len() == r@.len() + 1 && words(t.take(i - lo)).last()
                == s@.subrange(start as int, i as int),
            !open ==> words(t.take(i - lo)).len() == r@.len(),
            forall|k: int|
                0 <= k < r@.len() ==> {
                    &&& lo <= (#[trigger] r@[k]).0 <= r@[k].1 <= i
                    &&& s@.subrange(r@[k].0 as int, r@[k].1 as int) == words(t.take(i - lo))[k]
                },
        decreases hi - i,
    {
        let c = s[i];
        let ghost p = t.take(i - lo);
        let ghost q = t.take(i + 1 - lo);
        assert(q.drop_last() =~= p);
        assert(q.last() == c);
        if is_whitespace(c) {
            if open {
                r.push((start, i));
                open = false;
            }
        } else {
            if open {
                assert(p.len() > 0 && p.last() == s@[i - 1]);
                assert(s@.subrange(start as int, i + 1) =~= s@.subrange(start as int, i as int).push(c));
            } else {
                if i > lo {
                    assert(p.last() == s@[i - 1]);
                }
                start = i;
                open = true;
                assert(s@.subrange(start as int, i + 1) =~= seq![c]);
            }
        }
        i += 1;
    }
    if open {
        r.push((start, i));
    }
    assert(t.take(hi - lo) =~= t);
    r
}

/// The ranges `(start, end)` of the lines of `s` (terminators excluded), in
/// order.
pub fn line_ranges(s: &Vec<char>) -> (r: Vec<(usize, usize)>)
    ensures
        r@.len() == lines(s@).len(),
        forall|k: int|
            0 <= k < r@.len() ==> {
                &&& (#[trigger] r@[k]).0 <= r@[k].1 <= s.len()
                &&& s@.subrange(r@[k].0 as int, r@[k].1 as int) == lines(s@)[k]
            },
{
    let mut r: Vec<(usize, usize)> = Vec::new();
    let mut i: usize = 0;
    let mut start: usize = 0;
    while i < s.len()
        invariant
            start <= i <= s.len(),
            start == i ==> line_pieces(s@.take(i as int)).len() == r@.len(),
            start == i ==> (i == 0 || s@[i - 1] == '\n'),
            start < i ==> s@[i - 1] != '\n',
            start < i ==> line_pieces(s@.take(i as int)).len() == r@.len() + 1
                && line_pieces(s@.take(i as int)).last() == s@.subrange(start as int, i as int),
            forall|k: int|
                0 <= k < r@.len() ==> {
                    &&& (#[trigger] r@[k]).0 <= r@[k].1 <= i
                    &&& s@.subrange(r@[k].0 as int, r@[k].1 as int) == strip_eol(
                        line_pieces(s@.take(i as int))[k],
                    )
                },
        decreases s.len() - i,
    {
        let c = s[i];
        let ghost p = s@.take(i as int);
        let ghost q = s@.take(i + 1);
        assert(q.drop_last() =~= p);
        assert(q.last() == c);
        if start < i {
            assert(p.last() == s@[i - 1]);
        }
        if start == i && i > 0 {
            assert(p.last() == s@[i - 1]);
        }
        assert(s@.subrange(start as int, i + 1) =~= if start < i {
            s@.subrange(start as int, i as int).push(c)
        } else {
            seq![c]
        });
        if c == '\n' {
            let ghost piece = s@.subrange(start as int, i + 1);
            let mut end = i;
            if end > start && s[end - 1] == '\r' {
                end = end - 1;
            }
            proof {
                assert(piece.drop_last() =~= s@.subrange(start as int, i as int));
                if i > start {
                    assert(piece.drop_last().drop_last() =~= s@.subrange(start as int, i - 1));
                }
                assert(strip_eol(piece) =~= s@.subrange(start as int, end as int));
            }
            r.push((start, end));
            start = i + 1;
        }
        i += 1;
    }
    if start < i {
        proof {
            let piece = s@.subrange(start as int, i as int);
            assert(piece.last() != '\n');
            assert(strip_eol(piece) == piece);
        }
        r.push((start, i));
    }
    assert(s@.take(s.len() as int) =~= s@);
    r
}

/// The range of `s[lo..hi]` left once leading and trailing whitespace are
/// removed.
pub fn trim_range(s: &Vec<char>, lo: usize, hi: usize) -> (r: (usize, usize))
    requires
        lo <= hi <= s.len(),
    ensures
        lo <= r.0 <= r.1 <= hi,
        s@.subrange(r.0 as int, r.1 as int) == trim(s@.subrange(lo as int, hi as int)),
{
    let mut a = lo;
    while a < hi && is_whitespace(s[a])
        invariant
            lo <= a <= hi <= s.len(),
            trim_start(s@.subrange(lo as int, hi as int)) == trim_start(
                s@.subrange(a as int, hi as int),
            ),
        decreases hi - a,
    {
        assert(s@.subrange(a as int, hi as int).drop_first() =~= s@.subrange(a + 1, hi as int));
        a += 1;
    }
    assert(trim_start(s@.subrange(a as int, hi as int)) == s@.subrange(a as int, hi as int));
    let mut b = hi;
    while b > a && is_whitespace(s[b - 1])
        invariant
            lo <= a <= b <= hi <= s.len(),
            trim_end(s@.subrange(a as int, hi as int)) == trim_end(s@.subrange(a as int, b as int)),
        decreases b - a,
    {
        assert(s@.subrange(a as int, b as int).drop_last() =~= s@.subrange(a as int, b - 1));
        b -= 1;
    }
    (a, b)
}

/// `s[lo..hi]` begins with `p`.
pub fn starts_with_at(s: &Vec<char>, lo: usize, hi: usize, p: &Vec<char>) -> (b: bool)
    requires
        lo <= hi <= s.len(),
    ensures
        b == starts_with(s@.subrange(lo as int, hi as int), p@),
{
    if p.len() > hi - lo {
        return false;
    }
    let mut i: usize = 0;
    while i < p.len()
        invariant
            p.len() <= hi - lo,
            lo <= hi <= s.len(),
            i <= p.len(),
            forall|j: int| 0 <= j < i ==> s@[lo + j] == p@[j],
        decreases p.len() - i,
    {
        if s[lo + i] != p[i] {
            assert(s@.subrange(lo as int, hi as int).subrange(0, p.len() as int)[i as int] != p@[i as int]);
            return false;
        }
        i += 1;
    }
    assert(s@.subrange(lo as int, hi as int).subrange(0, p.len() as int) =~= p@);
    true
}

/// `q` occurs in `s` (`str::contains`).
pub fn contains_chars(s: &Vec<char>, q: &Vec<char>) -> (b: bool)
    ensures
        b == contains_seq(s@, q@),
{
    if q.len() > s.len() {
        return false;
    }
    let mut i: usize = 0;
    while i <= s.len() - q.len()
        invariant
            q.len() <= s.len(),
            i <= s.len() - q.len() + 1,
            forall|j: int| 0 <= j < i ==> #[trigger] s@.subrange(j, j + q.len()) != q@,
        decreases s.len() - i,
    {
        let mut k: usize = 0;
        let mut same = true;
        while k < q.len()
            invariant
                i + q.len() <= s.len(),
                k <= q.len(),
                same == (forall|m: int| 0 <= m < k ==> s@[i + m] == q@[m]),
            decreases q.len() - k,
        {
            if s[i + k] != q[k] {
                same = false;
            }
            k += 1;
        }
        if same {
            assert(s@.subrange(i as int, i + q.len()) =~= q@);
            return true;
        } else {
            proof {
                let m = choose|m: int| 0 <= m < q.len() && s@[i + m] != q@[m];
                assert(s@.subrange(i as int, i + q.len())[m] != q@[m]);
            }
        }
        i += 1;
    }
    assert forall|j: int|
        0 <= j && j + q.len() <= s.len() implies #[trigger] s@.subrange(j, j + q.len()) != q@ by {
        assert(j < i);
    }
    false
}

proof fn lemma_digits_value_prefix(s: Seq<char>, i: int)
    requires
        all_digits(s),
        0 <= i <= s.len(),
    ensures
        digits_value(s.take(i)) <= digits_value(s),
    decreases s.len(),
{
    if i < s.len() {
        assert(s.drop_last().take(i) =~= s.take(i));
        lemma_digits_value_prefix(s.drop_last(), i);
    } else {
        assert(s.take(i) =~= s);
    }
}

/// Parses `s[lo..hi]` as an unsigned number whose largest value is `max`
/// (the `FromStr` of `u64` and `u32`).
fn parse_unsigned_at(s: &Vec<char>, lo: usize, hi: usize, max: u64) -> (r: Option<u64>)
    requires
        lo <= hi <= s.len(),
        max >= 9,
    ensures
        match parse_unsigned(s@.subrange(lo as int, hi as int), max as nat) {
            Some(v) => r == Some(v as u64),
            None => r is None,
        },
{
    let ghost t = s@.subrange(lo as int, hi as int);
    let mut a = lo;
    if a < hi && s[a] == '+' {
        a += 1;
    }
    let ghost d = s@.subrange(a as int, hi as int);
    assert(unsigned_digits(t) =~= d);
    if a == hi {
        return None;
    }
    let mut acc: u64 = 0;
    let mut i = a;
    while i < hi
        invariant
            lo <= a <= i <= hi <= s.len(),
            d == s@.subrange(a as int, hi as int),
            unsigned_digits(s@.subrange(lo as int, hi as int)) == d,
            d.len() > 0,
            all_digits(d.take(i - a)),
            acc as nat == digits_value(d.take(i - a)),
            acc <= max,
            max >= 9,
        decreases hi - i,
    {
        let c = s[i];
        assert(d.take(i + 1 - a).drop_last() =~= d.take(i - a));
        if c < '0' || c > '9' {
            assert(d[i - a] == c);
            assert(!is_digit(d[i - a]));
            assert(!all_digits(d));
            return None;
        }
        let digit = (c as u32 - '0' as u32) as u64;
        assert(all_digits(d.take(i + 1 - a)));
        if acc > (max - digit) / 10 {
            proof {
                assert(digits_value(d.take(i + 1 - a)) == acc * 10 + digit);
                assert(acc * 10 + digit > max) by (nonlinear_arith)
                    requires acc > (max - digit) / 10, digit <= max || digit > max;
                if all_digits(d) {
                    lemma_digits_value_prefix(d, i + 1 - a);
                }
            }
            return None;
        }
        assert(acc * 10 + digit <= max) by (nonlinear_arith)
            requires acc <= (max - digit) / 10, digit <= max;
        acc = acc * 10 + digit;
        i += 1;
    }
    assert(d.take(hi - a) =~= d);
    Some(acc)
}

/// `s[lo..hi].parse::<u64>().ok()`.
pub fn parse_u64_at(s: &Vec<char>, lo: usize, hi: usize) -> (r: Option<u64>)
    requires
        lo <= hi <= s.len(),
    ensures
        r == parse_u64_spec(s@.subrange(lo as int, hi as int)),
{
    parse_unsigned_at(s, lo, hi, u64::MAX)
}

/// `s[lo..hi].parse::<u32>().ok()`.
pub fn parse_u32_at(s: &Vec<char>, lo: usize, hi: usize) -> (r: Option<u32>)
    requires
        lo <= hi <= s.len(),
    ensures
        r == parse_u32_spec(s@.subrange(lo as int, hi as int)),
{
    match parse_unsigned_at(s, lo, hi, 0xFFFF_FFFF) {
        Some(v) => Some(v as u32),
        None => None,
    }
}

/// `s.parse::<u32>().ok()`, for a whole string (a process directory name).
pub fn parse_u32(s: &str) -> (r: Option<u32>)
    ensures
        r == parse_u32_spec(s@),
{
    let v = to_chars(s);
    assert(v@.subrange(0, v@.len() as int) =~= v@);
    parse_u32_at(&v, 0, v.len())
}

/// The words of `s[lo..hi]`, each collected into a `String`, joined by single
/// spaces, leaving out the first `skip` words.
pub fn join_words_from(s: &Vec<char>, lo: usize, hi: usize, skip: usize) -> (r: String)
    requires
        lo <= hi <= s.len(),
    ensures
        r@ == join_spaced(skip_words(words(s@.subrange(lo as int, hi as int)), skip as int)),
{
    let w = word_ranges(s, lo, hi);
    let ghost ws = words(s@.subrange(lo as int, hi as int));
    let mut r = String::new();
    if skip >= w.len() {
        return r;
    }
    let mut k = skip;
    while k < w.len()
        invariant
            skip < w@.len(),
            skip <= k <= w@.len(),
            lo <= hi <= s.len(),
            ws == words(s@.subrange(lo as int, hi as int)),
            w@.len() == ws.len(),
            forall|j: int|
                0 <= j < w@.len() ==> {
                    &&& lo <= (#[trigger] w@[j]).0 <= w@[j].1 <= hi
                    &&& s@.subrange(w@[j].0 as int, w@[j].1 as int) == ws[j]
                },
            r@ == join_spaced(ws.subrange(skip as int, k as int)),
        decreases w@.len() - k,
    {
        let (a, b) = w[k];
        let piece = string_of(s, a, b);
        let ghost before = r@;
        if k > skip {
            push_char(&mut r, ' ');
        }
        r.append(piece.as_str());
        proof {
            let sub = ws.subrange(skip as int, k + 1);
            assert(sub.drop_last() =~= ws.subrange(skip as int, k as int));
            assert(sub.last() == ws[k as int]);
            if k > skip {
                assert(r@ =~= before + seq![' '] + ws[k as int]);
            } else {
                assert(sub =~= seq![ws[k as int]]);
                assert(r@ =~= ws[k as int]);
            }
        }
        k += 1;
    }
    assert(ws.subrange(skip as int, w@.len() as int) =~= ws.skip(skip as int));
    r
}

/// `a` comes before `b` in the order of their characters' code points, a
/// proper prefix first: the order of `String`'s `Ord`, since UTF-8 keeps the
/// order of code points.
pub open spec fn lex_lt(a: Seq<char>, b: Seq<char>) -> bool
    decreases a.len(),
{
    if a.len() == 0 {
        b.len() > 0
    } else if b.len() == 0 {
        false
    } else if a[0] < b[0] {
        true
    } else if a[0] == b[0] {
        lex_lt(a.drop_first(), b.drop_first())
    } else {
        false
    }
}

pub proof fn lemma_lex_irreflexive(a: Seq<char>)
    ensures
        !lex_lt(a, a),
    decreases a.len(),
{
    if a.len() > 0 {
        lemma_lex_irreflexive(a.drop_first());
    }
}

pub proof fn lemma_lex_total(a: Seq<char>, b: Seq<char>)
    requires
        a != b,
    ensures
        lex_lt(a, b) || lex_lt(b, a),
    decreases a.len(),
{
    if a.len() > 0 && b.len() > 0 && a[0] == b[0] {
        if a.drop_first() == b.drop_first() {
            assert(a =~= seq![a[0]] + a.drop_first());
            assert(b =~= seq![b[0]] + b.drop_first());
        }
        lemma_lex_total(a.drop_first(), b.drop_first());
    } else if a.len() == 0 && b.len() == 0 {
        assert(a =~= b);
    }
}

pub proof fn lemma_lex_asymmetric(a: Seq<char>, b: Seq<char>)
    requires
        lex_lt(a, b),
    ensures
        !lex_lt(b, a),
    decreases a.len(),
{
    if a.len() > 0 && b.len() > 0 && a[0] == b[0] {
        lemma_lex_asymmetric(a.drop_first(), b.drop_first());
    }
}

pub proof fn lemma_lex_transitive(a: Seq<char>, b: Seq<char>, c: Seq<char>)
    requires
        lex_lt(a, b),
        lex_lt(b, c),
    ensures
        lex_lt(a, c),
    decreases a.len(),
{
    if a.len() > 0 && b.len() > 0 && c.len() > 0 && a[0] == b[0] && b[0] == c[0] {
        lemma_lex_transitive(a.drop_first(), b.drop_first(), c.drop_first());
    }
}

/// Whether `a` comes before `b` (see [`lex_lt`]).
pub fn lex_less(a: &Vec<char>, b: &Vec<char>) -> (r: bool)
    ensures
        r == lex_lt(a@, b@),
{
    let mut i: usize = 0;
    assert(a@.skip(0) =~= a@);
    assert(b@.skip(0) =~= b@);
    while i < a.len() && i < b.len() && a[i] == b[i]
        invariant
            i <= a@.len(),
            i <= b@.len(),
            lex_lt(a@, b@) == lex_lt(a@.skip(i as int), b@.skip(i as int)),
        decreases a@.len() - i,
    {
        assert(a@.skip(i as int).drop_first() =~= a@.skip(i + 1));
        assert(b@.skip(i as int).drop_first() =~= b@.skip(i + 1));
        i += 1;
    }
    if i == a.len() {
        i < b.len()
    } else if i == b.len() {
        false
    } else {
        assert(a@.skip(i as int)[0] == a@[i as int]);
        assert(b@.skip(i as int)[0] == b@[i as int]);
        a[i] < b[i]
    }
}

} // verus!
