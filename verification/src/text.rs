//! Character-level helpers: decimal numbers, padding and comparison of text.
//!
//! Every contract here speaks of `Seq<char>`, the view of `str` and `String`.

use vstd::prelude::*;
use vstd::string::StrSliceExecFns;
use vstd::string::StringExecFns;

verus! {

/// `c` is one of the ten ASCII digits.
pub open spec fn is_digit(c: char) -> bool {
    '0' <= c && c <= '9'
}

/// The number that the digit `c` stands for.
pub open spec fn digit_value(c: char) -> nat {
    (c as int - '0' as int) as nat
}

/// The digit that stands for `d`, for `d < 10`.
pub open spec fn digit_char(d: nat) -> char {
    (d + '0' as nat) as char
}

/// Every character of `s` is a digit.
pub open spec fn all_digits(s: Seq<char>) -> bool {
    forall|i: int| 0 <= i < s.len() ==> is_digit(#[trigger] s[i])
}

/// The shortest decimal numeral of `n`: no sign, no leading zero but for `0` itself.
pub open spec fn decimal(n: nat) -> Seq<char>
    decreases n,
{
    if n < 10 {
        seq![digit_char(n)]
    } else {
        decimal(n / 10).push(digit_char(n % 10))
    }
}

/// The number that a run of digits denotes, most significant digit first.
pub open spec fn digits_value(s: Seq<char>) -> nat
    decreases s.len(),
{
    if s.len() == 0 {
        0
    } else {
        digits_value(s.drop_last()) * 10 + digit_value(s.last())
    }
}

/// What is left of a numeral once one leading `+` is taken away.
pub open spec fn unsigned_body(s: Seq<char>) -> Seq<char> {
    if s.len() > 0 && s[0] == '+' {
        s.skip(1)
    } else {
        s
    }
}

/// Reading of an unsigned number no greater than `max`: an optional `+`,
/// then one digit or more and nothing else.
pub open spec fn parse_unsigned(s: Seq<char>, max: nat) -> Option<nat> {
    let body = unsigned_body(s);
    if body.len() > 0 && all_digits(body) && digits_value(body) <= max {
        Some(digits_value(body))
    } else {
        None
    }
}

/// The views of a list of borrowed texts.
pub open spec fn str_views(texts: Seq<&str>) -> Seq<Seq<char>> {
    Seq::new(texts.len(), |i: int| texts[i]@)
}

/// A run of `n` spaces.
pub open spec fn spaces(n: nat) -> Seq<char> {
    Seq::new(n, |i: int| ' ')
}

/// `s` pushed to the right in a field of `width` characters; a longer `s` is left as it is.
pub open spec fn pad_left(s: Seq<char>, width: nat) -> Seq<char> {
    if s.len() >= width {
        s
    } else {
        spaces((width - s.len()) as nat) + s
    }
}

/// The number of characters in the decimal numeral of `n`.
pub open spec fn digit_count(n: nat) -> nat
    decreases n,
{
    if n < 10 {
        1
    } else {
        1 + digit_count(n / 10)
    }
}

/// A numeral is made of digits only and is never empty.
pub proof fn lemma_decimal_digits(n: nat)
    ensures
        decimal(n).len() == digit_count(n),
        decimal(n).len() > 0,
        all_digits(decimal(n)),
    decreases n,
{
    if n >= 10 {
        lemma_decimal_digits(n / 10);
    }
}

/// Reading a numeral gives back the number it was written from.
pub proof fn lemma_decimal_value(n: nat)
    ensures
        digits_value(decimal(n)) == n,
    decreases n,
{
    if n < 10 {
        assert(decimal(n).drop_last() =~= Seq::<char>::empty());
        assert(digits_value(decimal(n).drop_last()) == 0);
        assert(digit_value(decimal(n).last()) == n);
    } else {
        lemma_decimal_value(n / 10);
        assert(decimal(n).drop_last() =~= decimal(n / 10));
        assert(digit_value(decimal(n).last()) == n % 10);
    }
}

/// A numeral is read as its number whenever the number is within the limit.
pub proof fn lemma_parse_decimal(n: nat, max: nat)
    requires
        n <= max,
    ensures
        parse_unsigned(decimal(n), max) == Some(n),
{
    lemma_decimal_digits(n);
    lemma_decimal_value(n);
    assert(is_digit(decimal(n)[0]));
}

/// Digits added at the end never make the number smaller.
pub proof fn lemma_digits_value_prefix(s: Seq<char>, k: int)
    requires
        0 <= k <= s.len(),
    ensures
        digits_value(s.take(k)) <= digits_value(s),
    decreases s.len() - k,
{
    if k < s.len() {
        lemma_digits_value_prefix(s, k + 1);
        assert(s.take(k + 1).drop_last() =~= s.take(k));
    } else {
        assert(s.take(k) =~= s);
    }
}

/// The characters of `s`, in order.
pub fn chars_of(s: &str) -> (v: Vec<char>)
    ensures
        v@ == s@,
{
    let mut v: Vec<char> = Vec::new();
    for c in it: s.chars()
        invariant
            v@ == it.seq().take(it.index() as int),
            it.seq() == s@,
    {
        v.push(c);
    }
    v
}

/// Whether `chars[from..to]` spells exactly `word`.
pub fn range_is(chars: &Vec<char>, from: usize, to: usize, word: &str) -> (r: bool)
    requires
        from <= to <= chars.len(),
    ensures
        r == (chars@.subrange(from as int, to as int) == word@),
{
    let w = chars_of(word);
    if to - from != w.len() {
        return false;
    }
    let mut i: usize = 0;
    while i < w.len()
        invariant
            from <= to <= chars.len(),
            to - from == w.len(),
            w@ == word@,
            i <= w.len(),
            forall|j: int| 0 <= j < i ==> chars@[from + j] == w@[j],
        decreases w.len() - i,
    {
        if chars[from + i] != w[i] {
            assert(chars@.subrange(from as int, to as int)[i as int] != word@[i as int]);
            return false;
        }
        i = i + 1;
    }
    assert(chars@.subrange(from as int, to as int) =~= word@);
    true
}

/// Whether `chars[from..]` spells exactly `word`.
pub fn tail_is(chars: &Vec<char>, from: usize, word: &str) -> (r: bool)
    requires
        from <= chars.len(),
    ensures
        r == (chars@.skip(from as int) == word@),
{
    assert(chars@.skip(from as int) =~= chars@.subrange(from as int, chars.len() as int));
    range_is(chars, from, chars.len(), word)
}

/// Whether two texts hold the same characters.
pub fn same_text(a: &str, b: &str) -> (r: bool)
    ensures
        r == (a@ == b@),
{
    let chars = chars_of(a);
    assert(chars@.skip(0) =~= a@);
    tail_is(&chars, 0, b)
}

/// The value of one digit, or `None` for any other character.
pub fn digit_of(c: char) -> (r: Option<u8>)
    ensures
        r is Some <==> is_digit(c),
        r matches Some(d) ==> d == digit_value(c) && d < 10,
{
    if c >= '0' && c <= '9' {
        Some((c as u32 - '0' as u32) as u8)
    } else {
        None
    }
}

/// Reads `chars[from..to]` as an unsigned number no greater than `max`.
pub fn read_unsigned_in(chars: &Vec<char>, from: usize, to: usize, max: u32) -> (r: Option<u32>)
    requires
        from <= to <= chars.len(),
    ensures
        r is Some <==> parse_unsigned(chars@.subrange(from as int, to as int), max as nat)
            is Some,
        r matches Some(v) ==> parse_unsigned(
            chars@.subrange(from as int, to as int),
            max as nat,
        ) == Some(v as nat),
{
    let ghost whole = chars@.subrange(from as int, to as int);
    let mut start: usize = from;
    if start < to && chars[start] == '+' {
        assert(whole[0] == '+');
        start = start + 1;
    }
    let ghost body = unsigned_body(whole);
    assert(body =~= chars@.subrange(start as int, to as int)) by {
        if from < to {
            assert(whole[0] == chars@[from as int]);
        }
    }
    if start == to {
        return None;
    }
    let mut acc: u64 = 0;
    let mut i: usize = start;
    assert(body.take(0) =~= Seq::<char>::empty());
    while i < to
        invariant
            from <= start <= i <= to <= chars.len(),
            start < to,
            body == chars@.subrange(start as int, to as int),
            body == unsigned_body(chars@.subrange(from as int, to as int)),
            acc == digits_value(body.take(i - start)),
            all_digits(body.take(i - start)),
            acc <= max,
        decreases to - i,
    {
        let ghost seen = body.take(i - start);
        let ghost more = body.take(i + 1 - start);
        assert(more.drop_last() =~= seen);
        assert(more.last() == chars@[i as int]);
        match digit_of(chars[i]) {
            None => {
                assert(!is_digit(body[i - start]));
                return None;
            },
            Some(d) => {
                let next: u64 = acc * 10 + d as u64;
                assert(next == digits_value(more));
                assert(all_digits(more)) by {
                    assert forall|j: int| 0 <= j < more.len() implies is_digit(
                        #[trigger] more[j],
                    ) by {
                        if j < seen.len() {
                            assert(more[j] == seen[j]);
                        }
                    }
                }
                if next > max as u64 {
                    proof {
                        lemma_digits_value_prefix(body, i + 1 - start);
                    }
                    return None;
                }
                acc = next;
                i = i + 1;
            },
        }
    }
    assert(body.take(i - start) =~= body);
    Some(acc as u32)
}

/// Reads `chars[from..]` as an unsigned number no greater than `max`.
pub fn read_unsigned(chars: &Vec<char>, from: usize, max: u32) -> (r: Option<u32>)
    requires
        from <= chars.len(),
    ensures
        r is Some <==> parse_unsigned(chars@.skip(from as int), max as nat) is Some,
        r matches Some(v) ==> parse_unsigned(chars@.skip(from as int), max as nat) == Some(
            v as nat,
        ),
{
    assert(chars@.skip(from as int) =~= chars@.subrange(from as int, chars.len() as int));
    read_unsigned_in(chars, from, chars.len(), max)
}

/// The one-character text of a digit.
pub fn digit_text(d: u8) -> (r: &'static str)
    requires
        d < 10,
    ensures
        r@ == seq![digit_char(d as nat)],
{
    proof {
        reveal_strlit("0");
        reveal_strlit("1");
        reveal_strlit("2");
        reveal_strlit("3");
        reveal_strlit("4");
        reveal_strlit("5");
        reveal_strlit("6");
        reveal_strlit("7");
        reveal_strlit("8");
        reveal_strlit("9");
    }
    let r = if d == 0 {
        "0"
    } else if d == 1 {
        "1"
    } else if d == 2 {
        "2"
    } else if d == 3 {
        "3"
    } else if d == 4 {
        "4"
    } else if d == 5 {
        "5"
    } else if d == 6 {
        "6"
    } else if d == 7 {
        "7"
    } else if d == 8 {
        "8"
    } else {
        "9"
    };
    assert(r@ =~= seq![digit_char(d as nat)]);
    r
}

/// Writes the decimal numeral of `n` at the end of `out`.
pub fn append_decimal(out: &mut String, n: u32)
    ensures
        final(out)@ == old(out)@ + decimal(n as nat),
    decreases n,
{
    if n >= 10 {
        append_decimal(out, n / 10);
    }
    out.append(digit_text((n % 10) as u8));
    assert(final(out)@ =~= old(out)@ + decimal(n as nat));
}

/// The decimal numeral of `n` as a text of its own.
pub fn decimal_text(n: u32) -> (r: String)
    ensures
        r@ == decimal(n as nat),
{
    let mut r = String::new();
    append_decimal(&mut r, n);
    assert(r@ =~= decimal(n as nat));
    r
}

/// How many characters the decimal numeral of `n` has.
pub fn count_digits(n: u32) -> (r: usize)
    ensures
        r == digit_count(n as nat),
        1 <= r <= 10,
    decreases n,
{
    if n < 10 {
        1
    } else {
        let rest = count_digits(n / 10);
        proof {
            lemma_digit_count_bound(n as nat);
        }
        rest + 1
    }
}

/// A 32-bit number has at most ten digits.
pub proof fn lemma_digit_count_bound(n: nat)
    requires
        n <= u32::MAX,
    ensures
        1 <= digit_count(n) <= 10,
{
    reveal_with_fuel(digit_count, 11);
}

/// Writes `s` at the end of `out`, after as many spaces as a field of `width` asks for.
pub fn append_padded(out: &mut String, s: &str, width: usize)
    ensures
        final(out)@ == old(out)@ + pad_left(s@, width as nat),
{
    let len = s.unicode_len();
    let ghost before = out@;
    if len < width {
        let gap = width - len;
        let mut i: usize = 0;
        assert(out@ =~= before + spaces(0));
        while i < gap
            invariant
                i <= gap,
                out@ == before + spaces(i as nat),
            decreases gap - i,
        {
            proof {
                reveal_strlit(" ");
            }
            out.append(" ");
            i = i + 1;
            assert(out@ =~= before + spaces(i as nat));
        }
    }
    out.append(s);
    assert(out@ =~= before + pad_left(s@, width as nat));
}

} // verus!
