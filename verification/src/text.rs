//! Texts as sequences of characters.
use vstd::prelude::*;

verus! {

/// An ASCII decimal digit.
pub open spec fn is_digit(c: char) -> bool {
    '0' <= c && c <= '9'
}

/// Every character is an ASCII decimal digit.
pub open spec fn all_digits(s: Seq<char>) -> bool {
    forall|i: int| 0 <= i < s.len() ==> is_digit(#[trigger] s[i])
}

/// The number that a string of decimal digits writes.
pub open spec fn digits_value(s: Seq<char>) -> int
    decreases s.len(),
{
    if s.len() == 0 {
        0
    } else {
        digits_value(s.drop_last()) * 10 + (s.last() as int - '0' as int)
    }
}

/// A longer string of digits writes at least what its beginning writes.
pub proof fn lemma_digits_value_prefix(s: Seq<char>, n: int)
    requires
        all_digits(s),
        0 <= n <= s.len(),
    ensures
        digits_value(s.take(n)) <= digits_value(s),
        0 <= digits_value(s.take(n)),
    decreases s.len() - n,
{
    if n < s.len() {
        lemma_digits_value_prefix(s, n + 1);
        assert(s.take(n + 1).drop_last() =~= s.take(n));
        assert(is_digit(s[n]));
    } else {
        assert(s.take(n) =~= s);
        lemma_digits_value_nonneg(s);
    }
}

/// A string of digits writes a number that is not negative.
pub proof fn lemma_digits_value_nonneg(s: Seq<char>)
    requires
        all_digits(s),
    ensures
        0 <= digits_value(s),
    decreases s.len(),
{
    if s.len() > 0 {
        assert(all_digits(s.drop_last()));
        lemma_digits_value_nonneg(s.drop_last());
        assert(is_digit(s[s.len() - 1]));
    }
}

/// The number that a text writes in decimal digits, after an optional `+`
/// (or, where `signed`, `-`) sign, as the standard `from_str` of the integer
/// types reads it; `None` where it writes no number.
pub open spec fn int_text(s: Seq<char>, signed: bool) -> Option<int> {
    if s.len() == 0 {
        None
    } else if s[0] == '+' || (s[0] == '-' && signed) {
        let r = s.drop_first();
        if r.len() > 0 && all_digits(r) {
            if s[0] == '+' { Some(digits_value(r)) } else { Some(-digits_value(r)) }
        } else {
            None
        }
    } else if all_digits(s) {
        Some(digits_value(s))
    } else {
        None
    }
}

/// The number that a text writes, where it lies from `lo` to `hi`.
pub open spec fn number_in(s: Seq<char>, signed: bool, lo: int, hi: int) -> Option<int> {
    match int_text(s, signed) {
        Some(v) => if lo <= v <= hi { Some(v) } else { None },
        None => None,
    }
}

/// Reads the number that `cs[start..end]` writes, as `number_in` with the
/// bounds `-lo_mag` and `hi`.
pub fn parse_number(cs: &Vec<char>, start: usize, end: usize, signed: bool, lo_mag: u64, hi: u64) -> (r: Option<i64>)
    requires
        start <= end <= cs@.len(),
        lo_mag <= 0x8000_0000_0000_0000u64,
        hi <= 0x7fff_ffff_ffff_ffffu64,
    ensures
        r is Some <==> number_in(cs@.subrange(start as int, end as int), signed, -(lo_mag as int), hi as int) is Some,
        r matches Some(v) ==> number_in(cs@.subrange(start as int, end as int), signed, -(lo_mag as int), hi as int) == Some(v as int),
{
    let ghost s = cs@.subrange(start as int, end as int);
    if start == end {
        return None;
    }
    let c = cs[start];
    assert(s[0] == c);
    if c == '+' || (c == '-' && signed) {
        assert(s.drop_first() =~= cs@.subrange(start + 1, end as int));
        let bound = if c == '+' { hi } else { lo_mag };
        match parse_digits(cs, start + 1, end, bound) {
            Some(v) => {
                proof {
                    lemma_digits_value_nonneg(s.drop_first());
                }
                if c == '+' {
                    Some(v as i64)
                } else if v == 0x8000_0000_0000_0000u64 {
                    Some(i64::MIN)
                } else {
                    Some(-(v as i64))
                }
            },
            None => {
                proof {
                    if s.drop_first().len() > 0 && all_digits(s.drop_first()) {
                        lemma_digits_value_nonneg(s.drop_first());
                    }
                }
                None
            },
        }
    } else {
        match parse_digits(cs, start, end, hi) {
            Some(v) => {
                proof {
                    lemma_digits_value_nonneg(s);
                }
                Some(v as i64)
            },
            None => {
                proof {
                    if all_digits(s) {
                        lemma_digits_value_nonneg(s);
                    }
                }
                None
            },
        }
    }
}

/// The number that `cs[start..end]` writes in decimal digits, where every one of
/// them is a digit, there is at least one, and the number is at most `bound`.
pub fn parse_digits(cs: &Vec<char>, start: usize, end: usize, bound: u64) -> (r: Option<u64>)
    requires
        start <= end <= cs@.len(),
    ensures
        r is Some <==> (start < end && all_digits(cs@.subrange(start as int, end as int))
            && digits_value(cs@.subrange(start as int, end as int)) <= bound),
        r matches Some(v) ==> v == digits_value(cs@.subrange(start as int, end as int)),
{
    let ghost s = cs@.subrange(start as int, end as int);
    if start == end {
        return None;
    }
    let mut acc: u64 = 0;
    let mut i: usize = start;
    while i < end
        invariant
            start <= i <= end <= cs@.len(),
            s == cs@.subrange(start as int, end as int),
            all_digits(s.take(i - start)),
            acc == digits_value(s.take(i - start)),
            acc <= bound,
        decreases end - i,
    {
        let c = cs[i];
        let ghost k = i - start;
        assert(s.take(k + 1).drop_last() =~= s.take(k));
        assert(s[k] == c);
        if !('0' <= c && c <= '9') {
            assert(!is_digit(s[k]));
            return None;
        }
        let d = (c as u32 - '0' as u32) as u64;
        if d > bound || acc > (bound - d) / 10 {
            proof {
                assert(all_digits(s.take(k + 1))) by {
                    assert forall|j: int| 0 <= j < k + 1 implies is_digit(#[trigger] s.take(k + 1)[j]) by {
                        if j < k {
                            assert(s.take(k + 1)[j] == s.take(k)[j]);
                        }
                    }
                }
                assert(digits_value(s.take(k + 1)) == acc * 10 + d);
                if d <= bound {
                    assert(digits_value(s.take(k + 1)) > bound) by (nonlinear_arith)
                        requires
                            acc > (bound - d) / 10,
                            d <= 9,
                            d <= bound,
                            digits_value(s.take(k + 1)) == acc * 10 + d,
                    ;
                }
                if all_digits(s) {
                    lemma_digits_value_prefix(s, k + 1);
                }
            }
            return None;
        }
        assert(acc * 10 + d <= bound) by (nonlinear_arith)
            requires
                acc <= (bound - d) / 10,
                d <= bound,
        ;
        acc = acc * 10 + d;
        i = i + 1;
        proof {
            assert(all_digits(s.take(k + 1))) by {
                assert forall|j: int| 0 <= j < k + 1 implies is_digit(#[trigger] s.take(k + 1)[j]) by {
                    if j < k {
                        assert(s.take(k + 1)[j] == s.take(k)[j]);
                    }
                }
            }
        }
    }
    assert(s.take(end - start) =~= s);
    Some(acc)
}

/// The characters of an optional text.
pub open spec fn opt_chars(t: Option<&str>) -> Option<Seq<char>> {
    match t {
        Some(s) => Some(s@),
        None => None,
    }
}

/// The decimal digit for `d` (0 to 9).
pub open spec fn digit_char(d: int) -> char {
    (('0' as int) + d) as char
}

/// The decimal digits of `n`, without leading zeros (`Display` for the unsigned integers).
pub open spec fn nat_text(n: nat) -> Seq<char>
    decreases n,
{
    if n < 10 {
        seq![digit_char(n as int)]
    } else {
        nat_text(n / 10).push(digit_char((n % 10) as int))
    }
}

/// The decimal text of `n`, with a `-` before a negative number (`Display` for the signed integers).
pub open spec fn int_display(n: int) -> Seq<char> {
    if n < 0 {
        seq!['-'] + nat_text((-n) as nat)
    } else {
        nat_text(n as nat)
    }
}

/// `s` with `0`s before it up to `width` characters (the `{:0>width}` format).
pub open spec fn pad_zeros(s: Seq<char>, width: int) -> Seq<char> {
    if s.len() >= width {
        s
    } else {
        Seq::new((width - s.len()) as nat, |i: int| '0') + s
    }
}

/// Adds the decimal digits of `n`.
pub fn push_nat(out: &mut Vec<char>, n: u64)
    ensures
        final(out)@ == old(out)@ + nat_text(n as nat),
    decreases n,
{
    if n >= 10 {
        push_nat(out, n / 10);
    }
    let d = (n % 10) as u32;
    let c = char_from_digit(d);
    out.push(c);
    proof {
        if n >= 10 {
            assert(nat_text(n as nat) == nat_text((n / 10) as nat).push(digit_char((n % 10) as int)));
        }
    }
    assert(final(out)@ =~= old(out)@ + nat_text(n as nat));
}

/// The decimal digit for `d`.
fn char_from_digit(d: u32) -> (c: char)
    requires
        d < 10,
    ensures
        c == digit_char(d as int),
{
    if d == 0 { '0' } else if d == 1 { '1' } else if d == 2 { '2' } else if d == 3 { '3' } else if d == 4 {
        '4'
    } else if d == 5 { '5' } else if d == 6 { '6' } else if d == 7 { '7' } else if d == 8 { '8' } else { '9' }
}

/// The number of decimal digits of `n`.
pub fn nat_text_len(n: u64) -> (r: usize)
    ensures
        r == nat_text(n as nat).len(),
        r <= 20,
    decreases n,
{
    if n < 10 {
        1
    } else {
        let r = nat_text_len(n / 10);
        assert(nat_text(n as nat) == nat_text((n / 10) as nat).push(digit_char((n % 10) as int)));
        proof {
            reveal_with_fuel(pow10, 21);
            assert(pow10(20) == 100_000_000_000_000_000_000);
            lemma_nat_text_len_le(n as nat, 20);
        }
        r + 1
    }
}

/// A number below ten to the power `k` has at most `k` digits.
proof fn lemma_nat_text_len_le(n: nat, k: nat)
    requires
        k >= 1,
        n < pow10(k),
    ensures
        nat_text(n).len() <= k,
    decreases n,
{
    if n >= 10 {
        assert(pow10(k) == 10 * pow10((k - 1) as nat));
        if k == 1 {
            assert(pow10(0) == 1);
        } else {
            lemma_nat_text_len_le(n / 10, (k - 1) as nat);
        }
    }
}

/// Ten to the power `k`.
pub open spec fn pow10(k: nat) -> nat
    decreases k,
{
    if k == 0 { 1 } else { 10 * pow10((k - 1) as nat) }
}

/// Adds `n` in decimal, with `0`s before it up to `width` characters.
pub fn push_padded(out: &mut Vec<char>, n: u64, width: usize)
    ensures
        final(out)@ == old(out)@ + pad_zeros(nat_text(n as nat), width as int),
{
    let len = nat_text_len(n);
    let ghost before = out@;
    let mut k = len;
    while k < width
        invariant
            len <= k,
            k <= width || k == len,
            out@ == before + Seq::new((k - len) as nat, |i: int| '0'),
        decreases width - k,
    {
        out.push('0');
        k = k + 1;
        assert(out@ =~= before + Seq::new((k - len) as nat, |i: int| '0'));
    }
    let ghost zeros = out@;
    push_nat(out, n);
    proof {
        if len >= width {
            assert(out@ =~= before + nat_text(n as nat));
        } else {
            assert(out@ =~= before + (Seq::new((width - len) as nat, |i: int| '0') + nat_text(n as nat)));
        }
    }
}

/// Adds `n` in decimal, with a sign where it is negative, and `0`s before it
/// up to `width` characters.
pub fn push_padded_int(out: &mut Vec<char>, n: i32, width: usize)
    ensures
        final(out)@ == old(out)@ + pad_zeros(int_display(n as int), width as int),
{
    if n >= 0 {
        push_padded(out, n as u64, width);
    } else {
        let m: u64 = (-(n as i64)) as u64;
        let len = nat_text_len(m) + 1;
        let ghost before = out@;
        let mut k = len;
        while k < width
            invariant
                len <= k,
                k <= width || k == len,
                out@ == before + Seq::new((k - len) as nat, |i: int| '0'),
            decreases width - k,
        {
            out.push('0');
            k = k + 1;
            assert(out@ =~= before + Seq::new((k - len) as nat, |i: int| '0'));
        }
        out.push('-');
        let ghost mid = out@;
        push_nat(out, m);
        proof {
            let t = int_display(n as int);
            assert(t == seq!['-'] + nat_text(m as nat));
            if len >= width {
                assert(out@ =~= before + t);
            } else {
                assert(out@ =~= before + (Seq::new((width - len) as nat, |i: int| '0') + t));
            }
        }
    }
}

/// Adds the characters of a text.
pub fn push_str(out: &mut Vec<char>, s: &str)
    ensures
        final(out)@ == old(out)@ + s@,
{
    let cs = chars_of(s);
    let ghost before = out@;
    let mut i: usize = 0;
    while i < cs.len()
        invariant
            i <= cs@.len(),
            out@ == before + cs@.take(i as int),
        decreases cs@.len() - i,
    {
        out.push(cs[i]);
        i = i + 1;
        assert(out@ =~= before + cs@.take(i as int));
    }
    assert(cs@.take(cs@.len() as int) =~= cs@);
}

/// The texts of a list, each by its characters.
pub open spec fn strings_view(v: Seq<String>) -> Seq<Seq<char>> {
    v.map_values(|s: String| s@)
}

/// The texts joined with `sep` between each two (`join` on a list of strings).
pub open spec fn join_texts(parts: Seq<Seq<char>>, sep: Seq<char>) -> Seq<char>
    decreases parts.len(),
{
    if parts.len() == 0 {
        Seq::empty()
    } else if parts.len() == 1 {
        parts[0]
    } else {
        join_texts(parts.drop_last(), sep) + sep + parts.last()
    }
}

/// Joins the texts with `sep` between each two.
pub fn join_strings(parts: &Vec<String>, sep: &str) -> (r: String)
    ensures
        r@ == join_texts(strings_view(parts@), sep@),
{
    let out = join_chars(parts, sep);
    string_of(out.as_slice())
}

/// The characters of the texts joined with `sep` between each two.
pub fn join_chars(parts: &Vec<String>, sep: &str) -> (r: Vec<char>)
    ensures
        r@ == join_texts(strings_view(parts@), sep@),
{
    let ghost pv = strings_view(parts@);
    let mut out: Vec<char> = Vec::new();
    let mut i: usize = 0;
    assert(pv.take(0) =~= Seq::<Seq<char>>::empty());
    while i < parts.len()
        invariant
            pv == strings_view(parts@),
            i <= parts@.len(),
            out@ == join_texts(pv.take(i as int), sep@),
        decreases parts@.len() - i,
    {
        if i > 0 {
            push_str(&mut out, sep);
        }
        push_str(&mut out, parts[i].as_str());
        proof {
            let t = pv.take(i + 1);
            assert(t.drop_last() =~= pv.take(i as int));
            assert(t.last() == parts@[i as int]@);
            if i == 0 {
                assert(t.len() == 1);
                assert(out@ =~= t[0]);
            }
        }
        i = i + 1;
        assert(out@ =~= join_texts(pv.take(i as int), sep@));
    }
    assert(pv.take(pv.len() as int) =~= pv);
    out
}

/// The characters of a text (`str::chars`, collected).
#[verifier::external_body]
pub(crate) fn chars_of(s: &str) -> (r: Vec<char>)
    ensures
        r@ == s@,
{
    s.chars().collect()
}

/// The text made of the given characters (`FromIterator<char>` for `String`).
#[verifier::external_body]
pub(crate) fn string_of(cs: &[char]) -> (r: String)
    ensures
        r@ == cs@,
{
    cs.iter().collect()
}

/// Whether two texts are equal (`PartialEq` for `str`): the same characters in the same order.
#[verifier::external_body]
pub(crate) fn str_eq(a: &str, b: &str) -> (r: bool)
    ensures
        r == (a@ == b@),
{
    a == b
}

} // verus!
