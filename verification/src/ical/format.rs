//! The text operations that the iCalendar reader is made of: finding and
//! splitting on a pattern, trimming white space, and breaking text into lines.
use vstd::prelude::*;

verus! {

/// A white-space character (Unicode `White_Space`, as `char::is_whitespace` takes it).
pub open spec fn is_whitespace(c: char) -> bool {
    c == '\t' || c == '\n' || c == '\x0B' || c == '\x0C' || c == '\r' || c == ' ' || c == '\u{85}'
        || c == '\u{A0}' || c == '\u{1680}' || ('\u{2000}' <= c && c <= '\u{200A}') || c == '\u{2028}'
        || c == '\u{2029}' || c == '\u{202F}' || c == '\u{205F}' || c == '\u{3000}'
}

/// Whether `c` is a white-space character.
pub fn char_is_whitespace(c: char) -> (r: bool)
    ensures
        r == is_whitespace(c),
{
    c == '\t' || c == '\n' || c == '\x0B' || c == '\x0C' || c == '\r' || c == ' ' || c == '\u{85}'
        || c == '\u{A0}' || c == '\u{1680}' || ('\u{2000}' <= c && c <= '\u{200A}') || c == '\u{2028}'
        || c == '\u{2029}' || c == '\u{202F}' || c == '\u{205F}' || c == '\u{3000}'
}

/// The views of a list of texts.
pub open spec fn texts_view(v: Seq<Vec<char>>) -> Seq<Seq<char>> {
    v.map_values(|x: Vec<char>| x@)
}

/// `s` begins with `prefix`.
pub open spec fn starts_with(s: Seq<char>, prefix: Seq<char>) -> bool {
    prefix.len() <= s.len() && s.take(prefix.len() as int) == prefix
}

/// The first place, from `i` on, where `pat` occurs in `s`.
pub open spec fn find_pat(s: Seq<char>, pat: Seq<char>, i: int) -> Option<int>
    decreases s.len() + 1 - i,
{
    if i < 0 || i + pat.len() > s.len() {
        None
    } else if s.subrange(i, i + pat.len()) == pat {
        Some(i)
    } else {
        find_pat(s, pat, i + 1)
    }
}

/// The pieces of `s` between the occurrences of a non-empty `pat`, taken from
/// left to right without overlap (`str::split` with a text pattern).
pub open spec fn split_on(s: Seq<char>, pat: Seq<char>) -> Seq<Seq<char>>
    decreases s.len(),
{
    if pat.len() == 0 {
        seq![s]
    } else {
        match find_pat(s, pat, 0) {
            None => seq![s],
            Some(k) => if 0 <= k && k + pat.len() <= s.len() {
                seq![s.take(k)] + split_on(s.skip(k + pat.len()), pat)
            } else {
                seq![s]
            },
        }
    }
}

/// `s` without its leading white space.
pub open spec fn trim_start(s: Seq<char>) -> Seq<char>
    decreases s.len(),
{
    if s.len() > 0 && is_whitespace(s[0]) {
        trim_start(s.drop_first())
    } else {
        s
    }
}

/// `s` without its trailing white space.
pub open spec fn trim_end(s: Seq<char>) -> Seq<char>
    decreases s.len(),
{
    if s.len() > 0 && is_whitespace(s.last()) {
        trim_end(s.drop_last())
    } else {
        s
    }
}

/// `s` without leading and trailing white space (`str::trim`).
pub open spec fn trim(s: Seq<char>) -> Seq<char> {
    trim_end(trim_start(s))
}

/// A line without the carriage return that ended it.
pub open spec fn strip_cr(l: Seq<char>) -> Seq<char> {
    if l.len() > 0 && l.last() == '\r' {
        l.drop_last()
    } else {
        l
    }
}

/// The lines of `s` (`str::lines`): broken at each `\n`, a `\r` before it dropped,
/// with no empty line after a final `\n`.
pub open spec fn lines_of(s: Seq<char>) -> Seq<Seq<char>>
    decreases s.len(),
{
    if s.len() == 0 {
        Seq::empty()
    } else {
        match find_pat(s, seq!['\n'], 0) {
            None => seq![s],
            Some(k) => if 0 <= k < s.len() {
                seq![strip_cr(s.take(k))] + lines_of(s.skip(k + 1))
            } else {
                seq![s]
            },
        }
    }
}

pub proof fn lemma_find_pat_range(s: Seq<char>, pat: Seq<char>, i: int)
    ensures
        find_pat(s, pat, i) matches Some(k) ==> i <= k && k + pat.len() <= s.len()
            && s.subrange(k, k + pat.len()) == pat,
    decreases s.len() + 1 - i,
{
    if !(i < 0 || i + pat.len() > s.len()) && s.subrange(i, i + pat.len()) != pat {
        lemma_find_pat_range(s, pat, i + 1);
    }
}

/// Copies `s[start..end]`.
pub fn copy_range(s: &Vec<char>, start: usize, end: usize) -> (r: Vec<char>)
    requires
        start <= end <= s@.len(),
    ensures
        r@ == s@.subrange(start as int, end as int),
{
    let mut r: Vec<char> = Vec::new();
    let mut i = start;
    while i < end
        invariant
            start <= i <= end <= s@.len(),
            r@ == s@.subrange(start as int, i as int),
        decreases end - i,
    {
        r.push(s[i]);
        i = i + 1;
        assert(r@ =~= s@.subrange(start as int, i as int));
    }
    r
}

/// Whether `pat` occurs in `s` at place `i`.
pub fn occurs_at(s: &Vec<char>, pat: &Vec<char>, i: usize) -> (r: bool)
    requires
        i + pat@.len() <= s@.len(),
    ensures
        r == (s@.subrange(i as int, i + pat@.len()) == pat@),
{
    let mut j: usize = 0;
    let n = s.len();
    while j < pat.len()
        invariant
            n == s@.len(),
            i + pat@.len() <= s@.len(),
            j <= pat@.len(),
            forall|k: int| 0 <= k < j ==> s@[i + k] == pat@[k],
        decreases pat@.len() - j,
    {
        assert(i + j < s@.len());
        if s[i + j] != pat[j] {
            assert(s@.subrange(i as int, i + pat@.len())[j as int] != pat@[j as int]);
            return false;
        }
        j = j + 1;
    }
    assert(s@.subrange(i as int, i + pat@.len()) =~= pat@);
    true
}

/// The first place, from `from` on, where `pat` occurs in `s`.
pub fn find_pattern(s: &Vec<char>, pat: &Vec<char>, from: usize) -> (r: Option<usize>)
    ensures
        match find_pat(s@, pat@, from as int) {
            Some(k) => r == Some(k as usize),
            None => r is None,
        },
        r matches Some(k) ==> find_pat(s@, pat@, from as int) == Some(k as int),
{
    if pat.len() > s.len() {
        return None;
    }
    let last = s.len() - pat.len();
    let mut i = from;
    loop
        invariant
            last + pat@.len() == s@.len(),
            from <= i,
            find_pat(s@, pat@, from as int) == find_pat(s@, pat@, i as int),
        decreases last + 1 - i,
    {
        if i > last {
            return None;
        }
        if occurs_at(s, pat, i) {
            return Some(i);
        }
        if i == last {
            assert(find_pat(s@, pat@, i + 1) is None);
            return None;
        }
        i = i + 1;
    }
}

/// The pieces of `s` between the occurrences of a non-empty `pat`.
pub fn split_pattern(s: &Vec<char>, pat: &Vec<char>) -> (r: Vec<Vec<char>>)
    requires
        pat@.len() > 0,
    ensures
        texts_view(r@) == split_on(s@, pat@),
{
    let mut pieces: Vec<Vec<char>> = Vec::new();
    let mut start: usize = 0;
    let ghost mut done: Seq<Seq<char>> = Seq::empty();
    assert(s@.skip(0) =~= s@);
    assert(texts_view(pieces@) =~= done);
    loop
        invariant
            pat@.len() > 0,
            start <= s@.len(),
            texts_view(pieces@) == done,
            split_on(s@, pat@) == done + split_on(s@.skip(start as int), pat@),
        decreases s@.len() - start,
    {
        let ghost rest = s@.skip(start as int);
        match find_pattern(s, pat, start) {
            Some(k) => {
                proof {
                    lemma_find_pat_range(s@, pat@, start as int);
                    lemma_find_pat_shift(s@, pat@, start as int, 0);
                }
                assert(k + pat@.len() <= s@.len());
                let n = s.len();
                let piece = copy_range(s, start, k);
                assert(piece@ =~= rest.take(k - start));
                assert(rest.skip(k - start + pat@.len()) =~= s@.skip(k + pat@.len()));
                let ghost old_pieces = pieces@;
                pieces.push(piece);
                proof {
                    assert(texts_view(pieces@) =~= texts_view(old_pieces).push(piece@));
                    done = done.push(piece@);
                    assert(split_on(rest, pat@) == seq![rest.take(k - start)] + split_on(rest.skip(k - start + pat@.len()), pat@));
                    assert(done + split_on(s@.skip(k + pat@.len()), pat@) =~= (done.drop_last() + seq![piece@]) + split_on(s@.skip(k + pat@.len()), pat@));
                }
                start = k + pat.len();
            },
            None => {
                proof {
                    lemma_find_pat_shift(s@, pat@, start as int, 0);
                }
                let piece = copy_range(s, start, s.len());
                assert(piece@ =~= rest);
                let ghost old_pieces = pieces@;
                pieces.push(piece);
                proof {
                    assert(texts_view(pieces@) =~= texts_view(old_pieces).push(piece@));
                    assert(split_on(rest, pat@) == seq![rest]);
                    assert(split_on(s@, pat@) =~= texts_view(pieces@));
                }
                return pieces;
            },
        }
    }
}

/// Searching the rest of a text from a place finds what searching the whole
/// text from the place further on finds, shifted back.
proof fn lemma_find_pat_shift(s: Seq<char>, pat: Seq<char>, start: int, i: int)
    requires
        0 <= start <= s.len(),
        0 <= i,
    ensures
        find_pat(s.skip(start), pat, i) == (match find_pat(s, pat, start + i) {
            Some(k) => Some(k - start),
            None => None,
        }),
    decreases s.len() + 1 - start - i,
{
    let t = s.skip(start);
    if i + pat.len() > t.len() {
    } else {
        assert(t.subrange(i, i + pat.len()) =~= s.subrange(start + i, start + i + pat.len()));
        if t.subrange(i, i + pat.len()) != pat {
            lemma_find_pat_shift(s, pat, start, i + 1);
        }
    }
}

/// `s` without leading and trailing white space.
pub fn trim_chars(s: &Vec<char>) -> (r: Vec<char>)
    ensures
        r@ == trim(s@),
{
    let mut a: usize = 0;
    assert(s@.skip(0) =~= s@);
    while a < s.len() && char_is_whitespace(s[a])
        invariant
            a <= s@.len(),
            trim_start(s@) == trim_start(s@.skip(a as int)),
        decreases s@.len() - a,
    {
        assert(s@.skip(a as int).drop_first() =~= s@.skip(a + 1));
        a = a + 1;
    }
    assert(trim_start(s@) == s@.skip(a as int)) by {
        if a < s@.len() {
            assert(s@.skip(a as int)[0] == s@[a as int]);
        } else {
            assert(s@.skip(a as int).len() == 0);
        }
    }
    let mut b: usize = s.len();
    while b > a && char_is_whitespace(s[b - 1])
        invariant
            a <= b <= s@.len(),
            trim(s@) == trim_end(s@.subrange(a as int, b as int)),
            trim_start(s@) == s@.skip(a as int),
        decreases b - a,
    {
        assert(s@.subrange(a as int, b as int).drop_last() =~= s@.subrange(a as int, b - 1));
        b = b - 1;
    }
    copy_range(s, a, b)
}

/// The lines of `s`.
pub fn lines_chars(s: &Vec<char>) -> (r: Vec<Vec<char>>)
    ensures
        texts_view(r@) == lines_of(s@),
{
    let mut lines: Vec<Vec<char>> = Vec::new();
    let mut start: usize = 0;
    let ghost mut done: Seq<Seq<char>> = Seq::empty();
    let nl: Vec<char> = vec!['\n'];
    assert(nl@ =~= seq!['\n']);
    assert(s@.skip(0) =~= s@);
    assert(texts_view(lines@) =~= done);
    while start < s.len()
        invariant
            nl@ == seq!['\n'],
            start <= s@.len(),
            texts_view(lines@) == done,
            lines_of(s@) == done + lines_of(s@.skip(start as int)),
        decreases s@.len() - start,
    {
        let ghost rest = s@.skip(start as int);
        proof {
            lemma_find_pat_shift(s@, nl@, start as int, 0);
            lemma_find_pat_range(s@, nl@, start as int);
        }
        match find_pattern(s, &nl, start) {
            Some(k) => {
                let mut end = k;
                if end > start && s[end - 1] == '\r' {
                    end = end - 1;
                }
                let line = copy_range(s, start, end);
                assert(line@ =~= strip_cr(rest.take(k - start)));
                assert(rest.skip(k - start + 1) =~= s@.skip(k + 1));
                let ghost old_lines = lines@;
                lines.push(line);
                proof {
                    assert(texts_view(lines@) =~= texts_view(old_lines).push(line@));
                    done = done.push(line@);
                    assert(lines_of(rest) == seq![strip_cr(rest.take(k - start))] + lines_of(rest.skip(k - start + 1)));
                    assert(done + lines_of(s@.skip(k + 1)) =~= (done.drop_last() + seq![line@]) + lines_of(s@.skip(k + 1)));
                }
                start = k + 1;
            },
            None => {
                let line = copy_range(s, start, s.len());
                assert(line@ =~= rest);
                let ghost old_lines = lines@;
                lines.push(line);
                proof {
                    assert(texts_view(lines@) =~= texts_view(old_lines).push(line@));
                    assert(lines_of(rest) == seq![rest]);
                    assert(lines_of(s@) =~= texts_view(lines@));
                }
                return lines;
            },
        }
    }
    proof {
        assert(s@.skip(start as int) =~= Seq::<char>::empty());
        assert(lines_of(s@) =~= done);
    }
    lines
}

} // verus!
