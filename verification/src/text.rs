//! Characters, decimal numbers and lines: the pieces that the text format
//! of a graph is made of.

use vstd::prelude::*;

verus! {

/// The characters that separate the parts of a line: those with the
/// Unicode property White_Space.
pub open spec fn whitespace(c: char) -> bool {
    let x = c as u32;
    ||| 0x09 <= x <= 0x0D
    ||| x == 0x20
    ||| x == 0x85
    ||| x == 0xA0
    ||| x == 0x1680
    ||| 0x2000 <= x <= 0x200A
    ||| x == 0x2028
    ||| x == 0x2029
    ||| x == 0x202F
    ||| x == 0x205F
    ||| x == 0x3000
}

/// Whether `c` separates the parts of a line.
pub fn is_whitespace(c: char) -> (r: bool)
    ensures
        r == whitespace(c),
{
    let x: u32 = c as u32;
    (0x09 <= x && x <= 0x0D) || x == 0x20 || x == 0x85 || x == 0xA0 || x == 0x1680 || (0x2000 <= x
        && x <= 0x200A) || x == 0x2028 || x == 0x2029 || x == 0x202F || x == 0x205F || x == 0x3000
}

/// The predicate form of [`whitespace`].
pub open spec fn space() -> spec_fn(char) -> bool {
    |c: char| whitespace(c)
}

/// Holds of the line feed alone.
pub open spec fn newline() -> spec_fn(char) -> bool {
    |c: char| c == '\n'
}

/// Position of the first character of `s` that satisfies `p`; `s.len()`
/// when there is none.
pub open spec fn first_such(s: Seq<char>, p: spec_fn(char) -> bool) -> nat
    decreases s.len(),
{
    if s.len() == 0 {
        0
    } else if p(s[0]) {
        0
    } else {
        1 + first_such(s.drop_first(), p)
    }
}

/// `first_such` is within bounds, points at a match when it is below the
/// length, and passes no match on its way.
pub proof fn lemma_first_such(s: Seq<char>, p: spec_fn(char) -> bool)
    ensures
        first_such(s, p) <= s.len(),
        first_such(s, p) < s.len() ==> p(s[first_such(s, p) as int]),
        forall|j: int| 0 <= j < first_such(s, p) ==> !p(#[trigger] s[j]),
    decreases s.len(),
{
    if s.len() > 0 && !p(s[0]) {
        let rest = s.drop_first();
        lemma_first_such(rest, p);
        assert forall|j: int| 0 <= j < first_such(s, p) implies !p(#[trigger] s[j]) by {
            if j > 0 {
                assert(s[j] == rest[j - 1]);
            }
        }
    }
}

/// A position that passes no match on its way, and is a match or the end,
/// is the first match.
pub proof fn lemma_first_such_is(s: Seq<char>, p: spec_fn(char) -> bool, k: int)
    requires
        0 <= k <= s.len(),
        forall|j: int| 0 <= j < k ==> !p(#[trigger] s[j]),
        k < s.len() ==> p(s[k]),
    ensures
        first_such(s, p) == k,
{
    lemma_first_such(s, p);
    let f = first_such(s, p) as int;
    if f < k {
        assert(!p(s[f]));
    } else if k < f {
        assert(!p(s[k]));
    }
}

/// The two sides of the first whitespace character of `s`, which itself
/// belongs to neither; `None` when `s` has no whitespace.
pub open spec fn split_once(s: Seq<char>) -> Option<(Seq<char>, Seq<char>)> {
    let k = first_such(s, space()) as int;
    if k < s.len() {
        Some((s.take(k), s.skip(k + 1)))
    } else {
        None
    }
}

/// Splits `s` at its first whitespace character.
pub fn split_at_space<'a>(s: &'a [char]) -> (r: Option<(&'a [char], &'a [char])>)
    ensures
        match r {
            Some((a, b)) => split_once(s@) == Some((a@, b@)),
            None => split_once(s@) is None,
        },
{
    let n = s.len();
    let mut k: usize = 0;
    while k < n && !is_whitespace(s[k])
        invariant
            0 <= k <= n,
            n == s@.len(),
            forall|j: int| 0 <= j < k ==> !space()(#[trigger] s@[j]),
        decreases n - k,
    {
        k += 1;
    }
    proof {
        lemma_first_such_is(s@, space(), k as int);
    }
    if k < n {
        let a = vstd::slice::slice_subrange(s, 0, k);
        let b = vstd::slice::slice_subrange(s, k + 1, n);
        assert(a@ == s@.take(k as int));
        assert(b@ == s@.skip(k + 1));
        Some((a, b))
    } else {
        None
    }
}

/// `c` is one of the ten decimal digits.
pub open spec fn is_digit(c: char) -> bool {
    48 <= c as u32 <= 57
}

/// The digit character for `d`, which is below ten.
pub open spec fn digit_char(d: nat) -> char {
    (d + 48) as char
}

/// Every character of `s` is a decimal digit.
pub open spec fn all_digits(s: Seq<char>) -> bool {
    forall|i: int| 0 <= i < s.len() ==> is_digit(#[trigger] s[i])
}

/// The number that the digits `s` write, most significant digit first.
pub open spec fn digits_value(s: Seq<char>) -> nat
    decreases s.len(),
{
    if s.len() == 0 {
        0
    } else {
        (digits_value(s.drop_last()) * 10 + (s.last() as u32 - 48)) as nat
    }
}

/// The number that `s` writes: an optional `+`, then one or more decimal
/// digits, with a value that fits the id type. `None` for anything else.
pub open spec fn parse_number(s: Seq<char>) -> Option<usize> {
    let body = if s.len() > 0 && s[0] == '+' {
        s.skip(1)
    } else {
        s
    };
    if body.len() > 0 && all_digits(body) && digits_value(body) <= usize::MAX {
        Some(digits_value(body) as usize)
    } else {
        None
    }
}

/// The decimal digits of `n`, without leading zeros.
pub open spec fn decimal(n: nat) -> Seq<char>
    decreases n,
{
    if n < 10 {
        seq![digit_char(n)]
    } else {
        decimal(n / 10).push(digit_char(n % 10))
    }
}

/// A longer run of digits writes no smaller a number.
pub proof fn lemma_digits_grow(s: Seq<char>, k: int)
    requires
        all_digits(s),
        0 <= k <= s.len(),
    ensures
        digits_value(s.take(k)) <= digits_value(s),
    decreases s.len() - k,
{
    if k < s.len() {
        let longer = s.take(k + 1);
        assert(longer.drop_last() =~= s.take(k));
        assert(is_digit(s[k]));
        assert(longer.last() == s[k]);
        lemma_digits_grow(s, k + 1);
    } else {
        assert(s.take(k) =~= s);
    }
}

/// The digits of a number are digits, and write that number.
pub proof fn lemma_decimal(n: nat)
    ensures
        decimal(n).len() > 0,
        all_digits(decimal(n)),
        digits_value(decimal(n)) == n,
    decreases n,
{
    if n < 10 {
        let s = decimal(n);
        assert(s.drop_last() =~= Seq::<char>::empty());
        assert(digits_value(s.drop_last()) == 0);
        assert(s.last() == digit_char(n));
    } else {
        lemma_decimal(n / 10);
        let s = decimal(n);
        assert(s.drop_last() =~= decimal(n / 10));
        assert(s.last() == digit_char(n % 10));
        assert forall|i: int| 0 <= i < s.len() implies is_digit(#[trigger] s[i]) by {
            if i < s.len() - 1 {
                assert(s[i] == decimal(n / 10)[i]);
            }
        }
    }
}

/// Reading the digits of an id gives the id back.
pub proof fn lemma_decimal_parses(n: usize)
    ensures
        parse_number(decimal(n as nat)) == Some(n),
{
    lemma_decimal(n as nat);
    assert(is_digit(decimal(n as nat)[0]));
}

/// Reads `s` as an id.
pub fn parse_usize(s: &[char]) -> (r: Option<usize>)
    ensures
        r == parse_number(s@),
{
    let n = s.len();
    let start: usize = if n > 0 && s[0] == '+' {
        1
    } else {
        0
    };
    let ghost body = s@.skip(start as int);
    proof {
        assert(s@.skip(0) =~= s@);
    }
    if start == n {
        return None;
    }
    let mut acc: usize = 0;
    let mut i: usize = start;
    proof {
        assert(body.take(0) =~= Seq::<char>::empty());
    }
    while i < n
        invariant
            start <= i <= n,
            n == s@.len(),
            body == s@.skip(start as int),
            parse_number(s@) == if body.len() > 0 && all_digits(body) && digits_value(body)
                <= usize::MAX {
                Some(digits_value(body) as usize)
            } else {
                None
            },
            all_digits(body.take(i - start)),
            acc == digits_value(body.take(i - start)),
        decreases n - i,
    {
        let c = s[i];
        let x: u32 = c as u32;
        proof {
            assert(body[i - start] == c);
        }
        if !(48 <= x && x <= 57) {
            return None;
        }
        let d: usize = (x - 48) as usize;
        proof {
            let longer = body.take(i + 1 - start);
            assert(longer.drop_last() =~= body.take(i - start));
            assert(longer.last() == c);
            assert(digits_value(longer) == acc * 10 + d);
            assert forall|j: int| 0 <= j < longer.len() implies is_digit(#[trigger] longer[j]) by {
                if j < longer.len() - 1 {
                    assert(longer[j] == body.take(i - start)[j]);
                }
            }
            if all_digits(body) {
                lemma_digits_grow(body, i + 1 - start);
            }
        }
        let tens = match acc.checked_mul(10) {
            Some(t) => t,
            None => {
                return None;
            },
        };
        acc = match tens.checked_add(d) {
            Some(t) => t,
            None => {
                return None;
            },
        };
        i += 1;
    }
    proof {
        assert(body.take(n - start) =~= body);
    }
    Some(acc)
}

/// Appends the decimal digits of `n` to `out`.
pub fn push_decimal(out: &mut Vec<char>, n: usize)
    ensures
        final(out)@ == old(out)@ + decimal(n as nat),
    decreases n,
{
    if n >= 10 {
        push_decimal(out, n / 10);
    }
    let d: u8 = (n % 10) as u8;
    out.push((d + 48) as char);
    proof {
        assert(out@ =~= old(out)@ + decimal(n as nat));
    }
}

/// `line` without the carriage return at its end, if it has one there.
pub open spec fn strip_cr(line: Seq<char>) -> Seq<char> {
    if line.len() > 0 && line.last() == '\r' {
        line.drop_last()
    } else {
        line
    }
}

/// The lines of `s`. A line ends at a line feed, which is not part of it,
/// nor is a carriage return that stands right before that line feed. What
/// follows the last line feed is a line too unless it is empty; a carriage
/// return at its end stays.
pub open spec fn lines(s: Seq<char>) -> Seq<Seq<char>>
    decreases s.len(),
{
    if s.len() == 0 {
        Seq::empty()
    } else {
        let k = first_such(s, newline()) as int;
        if k < s.len() {
            seq![strip_cr(s.take(k))] + lines(s.skip(k + 1))
        } else {
            seq![s]
        }
    }
}

/// The first line of the text that starts at position `from`, and the
/// position at which the text after that line starts.
pub fn next_line<'a>(text: &'a [char], from: usize) -> (r: (&'a [char], usize))
    requires
        from < text@.len(),
    ensures
        from < r.1 <= text@.len(),
        lines(text@.skip(from as int)) == seq![r.0@] + lines(text@.skip(r.1 as int)),
        ({
            let rest = text@.skip(from as int);
            let k = first_such(rest, newline()) as int;
            if k < rest.len() {
                r.0@ == strip_cr(rest.take(k)) && r.1 == from + k + 1
            } else {
                r.0@ == rest && r.1 == text@.len()
            }
        }),
{
    let n = text.len();
    let ghost rest = text@.skip(from as int);
    let mut k: usize = from;
    while k < n && text[k] != '\n'
        invariant
            from <= k <= n,
            n == text@.len(),
            rest == text@.skip(from as int),
            forall|j: int| 0 <= j < k - from ==> !newline()(#[trigger] rest[j]),
        decreases n - k,
    {
        k += 1;
    }
    proof {
        lemma_first_such_is(rest, newline(), k - from);
    }
    if k < n {
        let end: usize = if k > from && text[k - 1] == '\r' {
            k - 1
        } else {
            k
        };
        let line = vstd::slice::slice_subrange(text, from, end);
        proof {
            let whole = rest.take(k - from);
            assert(whole =~= text@.subrange(from as int, k as int));
            assert(line@ =~= strip_cr(whole));
            assert(rest.skip(k - from + 1) =~= text@.skip(k + 1));
        }
        (line, k + 1)
    } else {
        let line = vstd::slice::slice_subrange(text, from, n);
        proof {
            assert(line@ =~= rest);
            assert(text@.skip(n as int) =~= Seq::<char>::empty());
            assert(lines(text@.skip(n as int)) =~= Seq::<Seq<char>>::empty());
            assert(seq![rest] + Seq::<Seq<char>>::empty() =~= seq![rest]);
        }
        (line, n)
    }
}

/// The characters of `s`.
pub fn chars_of(s: &str) -> (v: Vec<char>)
    ensures
        v@ == s@,
{
    let mut v: Vec<char> = Vec::new();
    for c in it: s.chars()
        invariant
            it.seq() == s@,
            v@ == it.seq().take(it.index() as int),
    {
        v.push(c);
    }
    v
}

/// `String::push` appends the given character to the end of the string and
/// leaves the rest as it was.
pub assume_specification[ String::push ](s: &mut String, c: char)
    ensures
        final(s)@ == old(s)@.push(c),
;

/// Appends the characters `cs` to `out`.
pub fn push_chars(out: &mut String, cs: &[char])
    ensures
        final(out)@ == old(out)@ + cs@,
{
    let n = cs.len();
    let mut i: usize = 0;
    while i < n
        invariant
            0 <= i <= n,
            n == cs@.len(),
            out@ == old(out)@ + cs@.take(i as int),
        decreases n - i,
    {
        out.push(cs[i]);
        proof {
            assert(cs@.take(i + 1) =~= cs@.take(i as int).push(cs@[i as int]));
        }
        i += 1;
    }
    proof {
        assert(cs@.take(n as int) =~= cs@);
    }
}

/// The string made of the characters `cs`.
pub fn string_of(cs: &[char]) -> (s: String)
    ensures
        s@ == cs@,
{
    let mut s = String::new();
    push_chars(&mut s, cs);
    s
}

/// The lines `ls`, each followed by a line feed.
pub open spec fn block(ls: Seq<Seq<char>>) -> Seq<char>
    decreases ls.len(),
{
    if ls.len() == 0 {
        Seq::empty()
    } else {
        block(ls.drop_last()) + ls.last() + seq!['\n']
    }
}

/// The lines `ls` with a line feed between each two neighbours, and none
/// after the last.
pub open spec fn join(ls: Seq<Seq<char>>) -> Seq<char>
    decreases ls.len(),
{
    if ls.len() == 0 {
        Seq::empty()
    } else if ls.len() == 1 {
        ls[0]
    } else {
        join(ls.drop_last()) + seq!['\n'] + ls.last()
    }
}

/// Joining some lines and one more is the block of the former, then the
/// latter.
pub proof fn lemma_join_push(ls: Seq<Seq<char>>, x: Seq<char>)
    ensures
        join(ls.push(x)) == block(ls) + x,
    decreases ls.len(),
{
    let all = ls.push(x);
    assert(all.drop_last() =~= ls);
    if ls.len() == 0 {
        assert(block(ls) + x =~= x);
    } else {
        lemma_join_push(ls.drop_last(), ls.last());
        assert(ls.drop_last().push(ls.last()) =~= ls);
        assert(join(all) =~= block(ls) + x);
    }
}

} // verus!
