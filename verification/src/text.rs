//! Text: hexadecimal and decimal digits, and the white space and prefixes that
//! are taken off a key.
use vstd::arithmetic::power::*;
use vstd::prelude::*;

verus! {

/// A hexadecimal digit, in lower case.
pub open spec fn hex_digit(n: nat) -> char
    recommends
        n < 16,
{
    "0123456789abcdef"@[n as int]
}

/// Two hexadecimal digits for each byte.
pub open spec fn hex(b: Seq<u8>) -> Seq<char>
    decreases b.len(),
{
    if b.len() == 0 {
        Seq::empty()
    } else {
        hex(b.drop_last()).push(hex_digit(b.last() as nat / 16)).push(
            hex_digit(b.last() as nat % 16),
        )
    }
}

/// The first eight bytes in hexadecimal, or all of them if there are fewer.
pub fn hex_short(bytes: &[u8]) -> (s: String)
    ensures
        s@ == hex(
            if bytes@.len() < 8 {
                bytes@
            } else {
                bytes@.take(8)
            },
        ),
{
    let n: usize = if bytes.len() < 8 {
        bytes.len()
    } else {
        8
    };
    let digits: &str = "0123456789abcdef";
    proof {
        reveal_strlit("0123456789abcdef");
        assert(bytes@.take(0) =~= Seq::<u8>::empty());
    }
    let mut s: String = String::new();
    let mut i: usize = 0;
    while i < n
        invariant
            i <= n <= bytes@.len(),
            digits@ == "0123456789abcdef"@,
            digits@.len() == 16,
            s@ == hex(bytes@.take(i as int)),
        decreases n - i,
    {
        let high: usize = (bytes[i] / 16) as usize;
        let low: usize = (bytes[i] % 16) as usize;
        let ghost before = s@;
        s.append(digits.substring_char(high, high + 1));
        s.append(digits.substring_char(low, low + 1));
        assert(bytes@.take(i + 1).drop_last() =~= bytes@.take(i as int));
        assert(s@ =~= before.push(hex_digit(high as nat)).push(hex_digit(low as nat)));
        i += 1;
    }
    assert(n == bytes@.len() ==> bytes@.take(n as int) =~= bytes@);
    s
}

/// Whether `c` is a decimal digit.
pub open spec fn is_digit(c: char) -> bool {
    '0' <= c <= '9'
}

/// The number that decimal digits stand for.
pub open spec fn decimal_value(s: Seq<char>) -> nat
    decreases s.len(),
{
    if s.len() == 0 {
        0
    } else {
        decimal_value(s.drop_last()) * 10 + (s.last() as nat - '0' as nat) as nat
    }
}

/// `s` without the plus sign that may stand in front.
pub open spec fn without_plus(s: Seq<char>) -> Seq<char> {
    if s.len() > 0 && s[0] == '+' {
        s.drop_first()
    } else {
        s
    }
}

/// Whether `s` is made of decimal digits.
pub open spec fn all_digits(s: Seq<char>) -> bool {
    forall|i: int| 0 <= i < s.len() ==> is_digit(#[trigger] s[i])
}

/// The number that `s` stands for, with an optional plus sign in front, if it
/// is one of decimal digits and at most `max`.
pub open spec fn parsed(s: Seq<char>, max: nat) -> Option<nat> {
    let digits = without_plus(s);
    if digits.len() > 0 && all_digits(digits) && decimal_value(digits) <= max {
        Some(decimal_value(digits))
    } else {
        None
    }
}

proof fn lemma_decimal_value_grows(s: Seq<char>, n: int)
    requires
        0 <= n <= s.len(),
        all_digits(s),
    ensures
        decimal_value(s.take(n)) <= decimal_value(s),
    decreases s.len() - n,
{
    if n < s.len() {
        lemma_decimal_value_grows(s, n + 1);
        assert(s.take(n + 1).drop_last() =~= s.take(n));
    } else {
        assert(s.take(n) =~= s);
    }
}

/// Reads a number that is at most `max`.
pub fn parse_unsigned(s: &str, max: u64) -> (r: Option<u64>)
    ensures
        match r {
            Some(v) => parsed(s@, max as nat) == Some(v as nat),
            None => parsed(s@, max as nat) is None,
        },
{
    let n: usize = s.unicode_len();
    let first: usize = if n > 0 && s.get_char(0) == '+' {
        1
    } else {
        0
    };
    let ghost digits = without_plus(s@);
    if first == n {
        return None;
    }
    let mut v: u64 = 0;
    let mut i: usize = first;
    assert(digits.take(0) =~= Seq::<char>::empty());
    while i < n
        invariant
            first <= i <= n,
            n == s@.len(),
            digits.len() == n - first,
            digits == without_plus(s@),
            forall|j: int| 0 <= j < digits.len() ==> #[trigger] digits[j] == s@[j + first],
            forall|j: int| 0 <= j < i - first ==> is_digit(#[trigger] digits[j]),
            v as nat == decimal_value(digits.take(i - first)),
            v <= max,
        decreases n - i,
    {
        let c: char = s.get_char(i);
        let ghost k = i - first;
        assert(digits[k] == c);
        if !('0' <= c && c <= '9') {
            assert(!is_digit(digits[k]));
            return None;
        }
        let d: u64 = c as u64 - '0' as u64;
        assert(digits.take(k + 1).drop_last() =~= digits.take(k));
        if v as u128 * 10 + d as u128 > max as u128 {
            proof {
                if all_digits(digits) {
                    lemma_decimal_value_grows(digits, k + 1);
                }
            }
            return None;
        }
        v = v * 10 + d;
        i += 1;
    }
    assert(digits.take(n - first) =~= digits);
    Some(v)
}

/// Reads a number that fits in a `usize`.
pub fn parse_usize(s: &str) -> (r: Option<usize>)
    ensures
        match r {
            Some(v) => parsed(s@, usize::MAX as nat) == Some(v as nat),
            None => parsed(s@, usize::MAX as nat) is None,
        },
{
    match parse_unsigned(s, usize::MAX as u64) {
        Some(v) => Some(v as usize),
        None => None,
    }
}

/// Reads a number that fits in a `u64`.
pub fn parse_u64(s: &str) -> (r: Option<u64>)
    ensures
        match r {
            Some(v) => parsed(s@, u64::MAX as nat) == Some(v as nat),
            None => parsed(s@, u64::MAX as nat) is None,
        },
{
    parse_unsigned(s, u64::MAX)
}

/// A number in decimal digits, without leading zeros.
pub open spec fn decimal(n: nat) -> Seq<char>
    decreases n,
{
    if n < 10 {
        seq!["0123456789"@[n as int]]
    } else {
        decimal(n / 10).push("0123456789"@[(n % 10) as int])
    }
}

/// Puts `n` behind `out`, in decimal digits.
pub fn append_decimal(out: &mut String, n: u32)
    ensures
        final(out)@ == old(out)@ + decimal(n as nat),
    decreases n,
{
    let ghost before = out@;
    if n >= 10 {
        append_decimal(out, n / 10);
    }
    let digits: &str = "0123456789";
    proof {
        reveal_strlit("0123456789");
    }
    let d: usize = (n % 10) as usize;
    out.append(digits.substring_char(d, d + 1));
    assert(out@ =~= before + decimal(n as nat));
}

/// A number that is written in decimal digits is read back as it was.
pub proof fn law_decimal_is_read_back(n: nat, max: nat)
    requires
        n <= max,
    ensures
        parsed(decimal(n), max) == Some(n),
{
    lemma_decimal(n);
}

proof fn lemma_digit(d: int)
    requires
        0 <= d < 10,
    ensures
        "0123456789"@[d] as int == '0' as int + d,
{
    reveal_strlit("0123456789");
    if d == 0 || d == 1 || d == 2 || d == 3 || d == 4 {
    } else if d == 5 || d == 6 || d == 7 || d == 8 || d == 9 {
    }
}

proof fn lemma_decimal(n: nat)
    ensures
        decimal(n).len() > 0,
        all_digits(decimal(n)),
        decimal_value(decimal(n)) == n,
    decreases n,
{
    lemma_digit(n as int % 10);
    if n < 10 {
        assert(decimal(n).drop_last() =~= Seq::<char>::empty());
        assert(decimal_value(Seq::<char>::empty()) == 0);
    } else {
        lemma_decimal(n / 10);
        assert(decimal(n).drop_last() =~= decimal(n / 10));
    }
}

/// Whether `c` has the Unicode property White_Space.
pub open spec fn is_white_space(c: char) -> bool {
    let u = c as u32;
    ||| 0x9 <= u <= 0xd
    ||| u == 0x20
    ||| u == 0x85
    ||| u == 0xa0
    ||| u == 0x1680
    ||| 0x2000 <= u <= 0x200a
    ||| u == 0x2028
    ||| u == 0x2029
    ||| u == 0x202f
    ||| u == 0x205f
    ||| u == 0x3000
}

/// Whether `c` has the Unicode property White_Space.
pub fn white_space(c: char) -> (r: bool)
    ensures
        r == is_white_space(c),
{
    let u: u32 = c as u32;
    (0x9 <= u && u <= 0xd) || u == 0x20 || u == 0x85 || u == 0xa0 || u == 0x1680 || (0x2000 <= u
        && u <= 0x200a) || u == 0x2028 || u == 0x2029 || u == 0x202f || u == 0x205f || u == 0x3000
}

/// Whether there is nothing but white space in `s`.
pub open spec fn is_blank(s: Seq<char>) -> bool {
    forall|i: int| 0 <= i < s.len() ==> is_white_space(#[trigger] s[i])
}

/// Whether there is nothing but white space in `s`.
pub fn blank(s: &str) -> (r: bool)
    ensures
        r == is_blank(s@),
{
    let n: usize = s.unicode_len();
    let mut i: usize = 0;
    while i < n
        invariant
            i <= n,
            n == s@.len(),
            forall|j: int| 0 <= j < i ==> is_white_space(#[trigger] s@[j]),
        decreases n - i,
    {
        let c: char = s.get_char(i);
        if !white_space(c) {
            assert(s@[i as int] == c);
            return false;
        }
        i += 1;
    }
    true
}

/// `s` without the white space in front.
pub open spec fn trimmed_start(s: Seq<char>) -> Seq<char>
    decreases s.len(),
{
    if s.len() > 0 && is_white_space(s[0]) {
        trimmed_start(s.drop_first())
    } else {
        s
    }
}

/// `s` without the white space at the end.
pub open spec fn trimmed_end(s: Seq<char>) -> Seq<char>
    decreases s.len(),
{
    if s.len() > 0 && is_white_space(s.last()) {
        trimmed_end(s.drop_last())
    } else {
        s
    }
}

/// `s` without the white space at both ends.
pub open spec fn trimmed(s: Seq<char>) -> Seq<char> {
    trimmed_end(trimmed_start(s))
}

/// Takes the white space off both ends.
pub fn trim(s: &str) -> (t: &str)
    ensures
        t@ == trimmed(s@),
{
    let n: usize = s.unicode_len();
    let mut i: usize = 0;
    assert(s@.subrange(0, n as int) =~= s@);
    while i < n && white_space(s.get_char(i))
        invariant
            i <= n,
            n == s@.len(),
            trimmed_start(s@) == trimmed_start(s@.subrange(i as int, n as int)),
        decreases n - i,
    {
        assert(s@.subrange(i as int, n as int).drop_first() =~= s@.subrange(i + 1, n as int));
        i += 1;
    }
    let mut j: usize = n;
    while i < j && white_space(s.get_char(j - 1))
        invariant
            i <= j <= n,
            n == s@.len(),
            trimmed(s@) == trimmed_end(s@.subrange(i as int, j as int)),
        decreases j - i,
    {
        assert(s@.subrange(i as int, j as int).drop_last() =~= s@.subrange(i as int, j - 1));
        j -= 1;
    }
    s.substring_char(i, j)
}

/// Taking the white space off leaves nothing exactly where there is nothing
/// but white space.
pub proof fn law_blank_is_trimmed_to_nothing(s: Seq<char>)
    ensures
        is_blank(s) <==> trimmed(s).len() == 0,
    decreases s.len(),
{
    if s.len() > 0 && is_white_space(s[0]) {
        law_blank_is_trimmed_to_nothing(s.drop_first());
        assert(trimmed(s) == trimmed(s.drop_first()));
        if is_blank(s.drop_first()) {
            assert forall|i: int| 0 <= i < s.len() implies is_white_space(#[trigger] s[i]) by {
                if i > 0 {
                    assert(s.drop_first()[i - 1] == s[i]);
                }
            }
        }
        if is_blank(s) {
            assert forall|i: int| 0 <= i < s.drop_first().len() implies is_white_space(
                #[trigger] s.drop_first()[i],
            ) by {
                assert(s[i + 1] == s.drop_first()[i]);
            }
        }
    } else if s.len() > 0 {
        lemma_trimmed_end_keeps_first(s);
        assert(!is_blank(s));
    }
}

proof fn lemma_trimmed_end_keeps_first(s: Seq<char>)
    requires
        s.len() > 0,
        !is_white_space(s[0]),
    ensures
        trimmed_end(s).len() > 0,
        trimmed_end(s)[0] == s[0],
    decreases s.len(),
{
    if is_white_space(s.last()) {
        assert(s.len() > 1);
        lemma_trimmed_end_keeps_first(s.drop_last());
    }
}

pub(crate) proof fn lemma_trimmed_end_concat(front: Seq<char>, s: Seq<char>)
    requires
        front.len() > 0,
        !is_white_space(front.last()),
    ensures
        trimmed_end(front + s) == front + trimmed_end(s),
    decreases s.len(),
{
    if s.len() == 0 {
        assert(front + s =~= front);
        assert(front + trimmed_end(s) =~= front);
    } else {
        assert((front + s).last() == s.last());
        if is_white_space(s.last()) {
            lemma_trimmed_end_concat(front, s.drop_last());
            assert((front + s).drop_last() =~= front + s.drop_last());
        }
    }
}

pub(crate) proof fn lemma_trimmed_end_blank(s: Seq<char>)
    requires
        is_blank(s),
    ensures
        trimmed_end(s).len() == 0,
    decreases s.len(),
{
    if s.len() > 0 {
        lemma_trimmed_end_blank(s.drop_last());
    }
}

/// `s` without the prefixes "0x" that it has, one after the other.
pub open spec fn strip_0x(s: Seq<char>) -> Seq<char>
    decreases s.len(),
{
    if s.len() >= 2 && s[0] == '0' && s[1] == 'x' {
        strip_0x(s.skip(2))
    } else {
        s
    }
}

/// Takes off every prefix "0x".
pub fn strip_hex_prefixes(s: &str) -> (t: &str)
    ensures
        t@ == strip_0x(s@),
{
    let n: usize = s.unicode_len();
    let mut i: usize = 0;
    assert(s@.skip(0) =~= s@);
    while n - i >= 2 && s.get_char(i) == '0' && s.get_char(i + 1) == 'x'
        invariant
            i <= n,
            n == s@.len(),
            strip_0x(s@) == strip_0x(s@.skip(i as int)),
        decreases n - i,
    {
        assert(s@.skip(i as int).skip(2) =~= s@.skip(i + 2));
        i += 2;
    }
    assert(s@.skip(i as int) =~= s@.subrange(i as int, n as int));
    s.substring_char(i, n)
}

proof fn lemma_hex_digit(n: int)
    requires
        0 <= n < 16,
    ensures
        hex_digit(n as nat) as int == if n < 10 {
            '0' as int + n
        } else {
            'a' as int + n - 10
        },
{
    reveal_strlit("0123456789abcdef");
    if n < 8 {
        assert(n == 0 || n == 1 || n == 2 || n == 3 || n == 4 || n == 5 || n == 6 || n == 7);
    } else {
        assert(n == 8 || n == 9 || n == 10 || n == 11 || n == 12 || n == 13 || n == 14 || n == 15);
    }
}

/// Byte number `i` can be read back from the two characters in its place: each
/// is one of 0 to 9 or of a to f, and the first counts sixteen times.
pub proof fn law_hex_is_read_back(b: Seq<u8>, i: int)
    requires
        0 <= i < b.len(),
    ensures
        hex(b).len() == 2 * b.len(),
        ({
            let (high, low) = (hex(b)[2 * i], hex(b)[2 * i + 1]);
            &&& '0' <= high <= '9' || 'a' <= high <= 'f'
            &&& '0' <= low <= '9' || 'a' <= low <= 'f'
            &&& b[i] == 16 * (if high <= '9' {
                high as int - '0' as int
            } else {
                high as int - 'a' as int + 10
            }) + (if low <= '9' {
                low as int - '0' as int
            } else {
                low as int - 'a' as int + 10
            })
        }),
    decreases b.len(),
{
    let front = b.drop_last();
    lemma_hex_digit(b.last() as int / 16);
    lemma_hex_digit(b.last() as int % 16);
    if front.len() > 0 {
        if i < front.len() {
            law_hex_is_read_back(front, i);
        } else {
            law_hex_is_read_back(front, 0);
        }
    } else {
        assert(hex(front).len() == 0);
    }
}

/// A decimal digit on its own is worth what it shows, and a text moves up by one
/// place for each digit that follows it.
pub proof fn law_decimal_value_of_parts(a: Seq<char>, b: Seq<char>, digit: char)
    requires
        '0' <= digit <= '9',
    ensures
        decimal_value(seq![digit]) == digit as int - '0' as int,
        decimal_value(a + b) == decimal_value(a) * pow(10, b.len()) + decimal_value(b),
    decreases b.len(),
{
    assert(seq![digit].drop_last() =~= Seq::<char>::empty());
    assert(decimal_value(Seq::<char>::empty()) == 0);
    let va = decimal_value(a) as int;
    if b.len() == 0 {
        lemma_pow0(10);
        assert(a + b =~= a);
    } else {
        let front = b.drop_last();
        law_decimal_value_of_parts(a, front, digit);
        lemma_pow_adds(10, front.len(), 1);
        lemma_pow1(10);
        assert((a + b).drop_last() =~= a + front);
        assert((a + b).last() == b.last());
        let p = pow(10, front.len());
        let vf = decimal_value(front) as int;
        assert((va * p + vf) * 10 == va * (p * 10) + vf * 10) by (nonlinear_arith);
    }
}

/// A text is read as `v` exactly where it is made of one or more decimal digits
/// that are worth `v`, with or without one plus sign in front, and `v` is not
/// too large.
pub proof fn law_parsed(s: Seq<char>, max: nat, v: nat)
    ensures
        parsed(s, max) == Some(v) <==> {
            &&& v <= max
            &&& exists|digits: Seq<char>|
                {
                    &&& digits.len() > 0
                    &&& forall|i: int| 0 <= i < digits.len() ==> '0' <= #[trigger] digits[i] <= '9'
                    &&& s == digits || s == seq!['+'] + digits
                    &&& #[trigger] decimal_value(digits) == v
                }
        },
{
    let own = without_plus(s);
    if s.len() > 0 && s[0] == '+' {
        assert(s =~= seq!['+'] + own);
    }
    if parsed(s, max) == Some(v) {
        assert forall|i: int| 0 <= i < own.len() implies '0' <= #[trigger] own[i] <= '9' by {
            assert(is_digit(own[i]));
        }
        assert(decimal_value(own) == v);
    }
    if v <= max {
        assert forall|digits: Seq<char>|
            {
                &&& digits.len() > 0
                &&& forall|i: int| 0 <= i < digits.len() ==> '0' <= #[trigger] digits[i] <= '9'
                &&& s == digits || s == seq!['+'] + digits
                &&& #[trigger] decimal_value(digits) == v
            } implies parsed(s, max) == Some(v) by {
            if s == digits {
                assert(s[0] != '+');
            } else {
                assert(s[0] == '+');
                assert((seq!['+'] + digits).drop_first() =~= digits);
            }
            assert(own == digits);
            assert(all_digits(digits));
        }
    }
}

/// A number is written in decimal digits that are worth the number, and not
/// with a 0 in front of others.
pub proof fn law_decimal(n: nat)
    ensures
        decimal_value(decimal(n)) == n,
        decimal(n).len() > 0,
        forall|i: int| 0 <= i < decimal(n).len() ==> '0' <= #[trigger] decimal(n)[i] <= '9',
        decimal(n).len() > 1 ==> decimal(n)[0] != '0',
    decreases n,
{
    lemma_decimal(n);
    assert forall|i: int| 0 <= i < decimal(n).len() implies '0' <= #[trigger] decimal(n)[i]
        <= '9' by {
        assert(is_digit(decimal(n)[i]));
    }
    if n >= 10 {
        law_decimal(n / 10);
        lemma_decimal(n / 10);
        if decimal(n / 10).len() == 1 {
            let d = decimal(n / 10);
            assert(d.drop_last() =~= Seq::<char>::empty());
            assert(decimal_value(Seq::<char>::empty()) == 0);
            assert(d[0] == d.last());
        }
    }
}

/// The characters that count as white space, one by one: tabs, line ends and
/// spaces, and those that the other scripts have.
pub proof fn law_white_space(c: char)
    ensures
        is_white_space(c) <==> {
            ||| c == '\t' || c == '\n' || c == '\u{b}' || c == '\u{c}' || c == '\r' || c == ' '
            ||| c == '\u{85}' || c == '\u{a0}' || c == '\u{1680}'
            ||| c == '\u{2000}' || c == '\u{2001}' || c == '\u{2002}' || c == '\u{2003}'
            ||| c == '\u{2004}' || c == '\u{2005}' || c == '\u{2006}' || c == '\u{2007}'
            ||| c == '\u{2008}' || c == '\u{2009}' || c == '\u{200a}'
            ||| c == '\u{2028}' || c == '\u{2029}' || c == '\u{202f}' || c == '\u{205f}'
            ||| c == '\u{3000}'
        },
{
}

/// Two texts one after the other are blank exactly where both are, a character
/// on its own exactly where it is white space, and the empty text always.
pub proof fn law_blank(a: Seq<char>, b: Seq<char>, c: char)
    ensures
        is_blank(a + b) <==> is_blank(a) && is_blank(b),
        is_blank(seq![c]) <==> is_white_space(c),
        is_blank(Seq::empty()),
{
    if is_blank(a + b) {
        assert forall|i: int| 0 <= i < a.len() implies is_white_space(#[trigger] a[i]) by {
            assert((a + b)[i] == a[i]);
        }
        assert forall|i: int| 0 <= i < b.len() implies is_white_space(#[trigger] b[i]) by {
            assert((a + b)[a.len() + i] == b[i]);
        }
    }
    assert(seq![c][0] == c);
}

proof fn lemma_trimmed_start_concat(front: Seq<char>, s: Seq<char>)
    requires
        is_blank(front),
    ensures
        trimmed_start(front + s) == trimmed_start(s),
    decreases front.len(),
{
    if front.len() == 0 {
        assert(front + s =~= s);
    } else {
        assert(is_white_space(front[0]));
        assert((front + s).drop_first() =~= front.drop_first() + s);
        assert forall|i: int| 0 <= i < front.drop_first().len() implies is_white_space(
            #[trigger] front.drop_first()[i],
        ) by {
            assert(front.drop_first()[i] == front[i + 1]);
        }
        lemma_trimmed_start_concat(front.drop_first(), s);
    }
}

/// Trimming takes off exactly what is blank at the two ends, and touches nothing
/// in between.
pub proof fn law_trimmed(front: Seq<char>, core: Seq<char>, back: Seq<char>)
    requires
        is_blank(front),
        is_blank(back),
        core.len() > 0 ==> !is_white_space(core[0]) && !is_white_space(core.last()),
    ensures
        trimmed(front + core + back) == core,
{
    assert(front + core + back =~= front + (core + back));
    lemma_trimmed_start_concat(front, core + back);
    if core.len() == 0 {
        assert(core + back =~= back);
        law_blank_is_trimmed_to_nothing(back);
        assert(trimmed(back) =~= core);
    } else {
        assert((core + back)[0] == core[0]);
        lemma_trimmed_end_concat(core, back);
        lemma_trimmed_end_blank(back);
        assert(core + trimmed_end(back) =~= core);
    }
}

/// Every "0x" in front goes, however many there are, and nothing else does.
pub proof fn law_strip_0x(prefixes: Seq<char>, rest: Seq<char>)
    requires
        prefixes.len() % 2 == 0,
        forall|i: int|
            0 <= i < prefixes.len() ==> #[trigger] prefixes[i] == if i % 2 == 0 {
                '0'
            } else {
                'x'
            },
        !(rest.len() >= 2 && rest[0] == '0' && rest[1] == 'x'),
    ensures
        strip_0x(prefixes + rest) == rest,
    decreases prefixes.len(),
{
    if prefixes.len() == 0 {
        assert(prefixes + rest =~= rest);
    } else {
        let all = prefixes + rest;
        let fewer = prefixes.skip(2);
        assert(all[0] == prefixes[0] && all[1] == prefixes[1]);
        assert(all.skip(2) =~= fewer + rest);
        assert forall|i: int| 0 <= i < fewer.len() implies #[trigger] fewer[i] == if i % 2 == 0 {
            '0'
        } else {
            'x'
        } by {
            assert(fewer[i] == prefixes[i + 2]);
        }
        law_strip_0x(fewer, rest);
    }
}

} // verus!
