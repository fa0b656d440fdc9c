//! Text handling for the progress protocol, over sequences of characters.
//!
//! Every function here is specified by a short spec function of the same
//! purpose: what counts as white space, what trimming removes, where a line
//! splits, and which texts are unsigned decimal numbers.

use vstd::prelude::*;

verus! {

/// Whether `c` has the Unicode property `White_Space`.
pub open spec fn white_space(c: char) -> bool {
    let u = c as u32;
    ||| 0x09 <= u <= 0x0D
    ||| u == 0x20
    ||| u == 0x85
    ||| u == 0xA0
    ||| u == 0x1680
    ||| 0x2000 <= u <= 0x200A
    ||| u == 0x2028
    ||| u == 0x2029
    ||| u == 0x202F
    ||| u == 0x205F
    ||| u == 0x3000
}

/// `s` without its leading white space.
pub open spec fn trimmed_start(s: Seq<char>) -> Seq<char>
    decreases s.len(),
{
    if s.len() > 0 && white_space(s[0]) {
        trimmed_start(s.drop_first())
    } else {
        s
    }
}

/// `s` without its trailing white space.
pub open spec fn trimmed_end(s: Seq<char>) -> Seq<char>
    decreases s.len(),
{
    if s.len() > 0 && white_space(s.last()) {
        trimmed_end(s.drop_last())
    } else {
        s
    }
}

/// `s` without leading and trailing white space.
pub open spec fn trimmed(s: Seq<char>) -> Seq<char> {
    trimmed_end(trimmed_start(s))
}

/// The index of the first `c` in `s`, or the length of `s` if there is none.
pub open spec fn position(s: Seq<char>, c: char) -> int
    decreases s.len(),
{
    if s.len() == 0 || s[0] == c {
        0
    } else {
        1 + position(s.drop_first(), c)
    }
}

/// What stands before the first `c` in `s`; all of `s` if there is none.
pub open spec fn before(s: Seq<char>, c: char) -> Seq<char> {
    s.take(position(s, c))
}

/// What stands after the first `c` in `s`; nothing if there is none.
pub open spec fn after(s: Seq<char>, c: char) -> Seq<char> {
    if position(s, c) < s.len() {
        s.skip(position(s, c) + 1)
    } else {
        Seq::empty()
    }
}

/// Whether `s` ends with `suffix`.
pub open spec fn ends_with(s: Seq<char>, suffix: Seq<char>) -> bool {
    suffix.len() <= s.len() && s.skip(s.len() - suffix.len()) == suffix
}

/// `s` without `suffix` at its end, or `s` itself if it does not end with it.
pub open spec fn without_suffix(s: Seq<char>, suffix: Seq<char>) -> Seq<char> {
    if ends_with(s, suffix) {
        s.take(s.len() - suffix.len())
    } else {
        s
    }
}

/// Whether every character of `s` is a decimal digit.
pub open spec fn all_digits(s: Seq<char>) -> bool {
    forall|i: int| 0 <= i < s.len() ==> '0' <= #[trigger] s[i] <= '9'
}

/// The number that the decimal digits `s` denote.
pub open spec fn digits_value(s: Seq<char>) -> nat
    decreases s.len(),
{
    if s.len() == 0 {
        0
    } else {
        digits_value(s.drop_last()) * 10 + (s.last() as u32 - '0' as u32) as nat
    }
}

/// The digits of an unsigned decimal text: the text without one leading `+`.
pub open spec fn unsigned_digits(s: Seq<char>) -> Seq<char> {
    if s.len() > 0 && s[0] == '+' {
        s.drop_first()
    } else {
        s
    }
}

/// The number that `s` denotes as an unsigned decimal: an optional `+`, then
/// one or more digits and nothing else, with a value that fits 64 bits.
pub open spec fn unsigned_of(s: Seq<char>) -> Option<u64> {
    let digits = unsigned_digits(s);
    if digits.len() > 0 && all_digits(digits) && digits_value(digits) <= u64::MAX {
        Some(digits_value(digits) as u64)
    } else {
        None
    }
}

/// Why a text is no unsigned decimal number of 64 bits.
#[derive(Clone, Copy, Debug, PartialEq, Eq, Structural)]
pub enum NumberError {
    /// The text is empty.
    Empty,
    /// The text holds something else than digits after its optional `+`, or
    /// nothing at all after it.
    InvalidDigit,
    /// The digits denote a number that 64 bits do not hold.
    Overflow,
}

/// How many decimal digits stand at the front of `s`.
pub open spec fn digit_run(s: Seq<char>) -> int
    decreases s.len(),
{
    if s.len() > 0 && '0' <= s[0] <= '9' {
        1 + digit_run(s.drop_first())
    } else {
        0
    }
}

/// Why `s` is no unsigned decimal number of 64 bits, where it is none. The
/// text is read from the left: what is met first decides, a character that
/// is no digit or a digit with which the number grows beyond 64 bits.
pub open spec fn number_error(s: Seq<char>) -> NumberError {
    let digits = unsigned_digits(s);
    let run = digit_run(digits);
    if s.len() == 0 {
        NumberError::Empty
    } else if digits.len() == 0 {
        NumberError::InvalidDigit
    } else if run < digits.len() && digits_value(digits.take(run)) <= u64::MAX {
        NumberError::InvalidDigit
    } else {
        NumberError::Overflow
    }
}

/// What reading `s` as an unsigned decimal number of 64 bits gives: the
/// number, or the reason why it is none.
pub open spec fn unsigned_read(s: Seq<char>) -> Result<u64, NumberError> {
    match unsigned_of(s) {
        Some(v) => Ok(v),
        None => Err(number_error(s)),
    }
}

/// The digits at the front of a text are digits, and what follows them is
/// none.
pub proof fn lemma_digit_run(s: Seq<char>)
    ensures
        0 <= digit_run(s) <= s.len(),
        all_digits(s.take(digit_run(s))),
        digit_run(s) < s.len() ==> !('0' <= s[digit_run(s)] <= '9'),
    decreases s.len(),
{
    if s.len() > 0 && '0' <= s[0] <= '9' {
        let rest = s.drop_first();
        lemma_digit_run(rest);
        let run = digit_run(s);
        assert forall|i: int| 0 <= i < s.take(run).len() implies '0' <= #[trigger] s.take(run)[i]
            <= '9' by {
            if i > 0 {
                assert(s.take(run)[i] == rest.take(run - 1)[i - 1]);
            }
        }
        if run < s.len() {
            assert(s[run] == rest[run - 1]);
        }
    }
}

/// Trimming adds no character: a character that a text does not hold is
/// not held by the trimmed text.
pub proof fn lemma_trimmed_within(s: Seq<char>, c: char)
    requires
        position(s, c) == s.len(),
    ensures
        position(trimmed(s), c) == trimmed(s).len(),
{
    lemma_trimmed_start_within(s, c);
    lemma_trimmed_end_within(trimmed_start(s), c);
}

/// A character that a text does not hold is not held by the text without
/// its leading white space.
proof fn lemma_trimmed_start_within(s: Seq<char>, c: char)
    requires
        position(s, c) == s.len(),
    ensures
        position(trimmed_start(s), c) == trimmed_start(s).len(),
    decreases s.len(),
{
    if s.len() > 0 && white_space(s[0]) {
        lemma_trimmed_start_within(s.drop_first(), c);
    }
}

/// A character that a text does not hold is not held by the text without
/// its trailing white space.
proof fn lemma_trimmed_end_within(s: Seq<char>, c: char)
    requires
        position(s, c) == s.len(),
    ensures
        position(trimmed_end(s), c) == trimmed_end(s).len(),
    decreases s.len(),
{
    if s.len() > 0 && white_space(s.last()) {
        lemma_position(s, c);
        let front = s.drop_last();
        assert forall|j: int| 0 <= j < front.len() implies front[j] != c by {
            assert(front[j] == s[j]);
        }
        lemma_position_is(front, c, front.len() as int);
        lemma_trimmed_end_within(front, c);
    }
}

/// Whether `c` has the Unicode property `White_Space`.
pub fn is_white_space(c: char) -> (r: bool)
    ensures
        r == white_space(c),
{
    let u: u32 = c as u32;
    (0x09 <= u && u <= 0x0D) || u == 0x20 || u == 0x85 || u == 0xA0 || u == 0x1680 || (0x2000 <= u
        && u <= 0x200A) || u == 0x2028 || u == 0x2029 || u == 0x202F || u == 0x205F || u == 0x3000
}

/// The characters of `s`.
pub fn chars_of(s: &str) -> (r: Vec<char>)
    ensures
        r@ == s@,
{
    let mut out: Vec<char> = Vec::new();
    for c in it: s.chars()
        invariant
            out@ == it.seq().take(it.index() as int),
            it.seq() == s@,
    {
        out.push(c);
    }
    out
}

/// `String::push` of std: appends one character to the string.
#[verifier::external_body]
fn push_char(s: &mut String, c: char)
    ensures
        final(s)@ == old(s)@.push(c),
{
    s.push(c)
}

/// The string made of the characters `s`.
pub fn string_of(s: &[char]) -> (r: String)
    ensures
        r@ == s@,
{
    let mut out = String::new();
    let mut i: usize = 0;
    while i < s.len()
        invariant
            i <= s.len(),
            out@ == s@.take(i as int),
        decreases s.len() - i,
    {
        push_char(&mut out, s[i]);
        i += 1;
        assert(s@.take(i as int) =~= s@.take(i - 1).push(s@[i - 1]));
    }
    assert(s@.take(i as int) =~= s@);
    out
}

/// Whether `s` spells the literal `lit`.
pub fn spells(s: &[char], lit: &str) -> (r: bool)
    ensures
        r == (s@ == lit@),
{
    let n = lit.unicode_len();
    if s.len() != n {
        return false;
    }
    let mut i: usize = 0;
    while i < n
        invariant
            i <= n,
            n == lit@.len(),
            n == s@.len(),
            forall|j: int| 0 <= j < i ==> s@[j] == lit@[j],
        decreases n - i,
    {
        if s[i] != lit.get_char(i) {
            return false;
        }
        i += 1;
    }
    assert(s@ =~= lit@);
    true
}

/// `s` without leading and trailing white space.
pub fn trim(s: &[char]) -> (r: &[char])
    ensures
        r@ == trimmed(s@),
{
    let n = s.len();
    let mut a: usize = 0;
    assert(s@.skip(0) =~= s@);
    while a < n && is_white_space(s[a])
        invariant
            a <= n,
            n == s@.len(),
            trimmed_start(s@) == trimmed_start(s@.skip(a as int)),
        decreases n - a,
    {
        assert(s@.skip(a as int).drop_first() =~= s@.skip(a + 1));
        a += 1;
    }
    let ghost rest = s@.skip(a as int);
    assert(trimmed_start(s@) == rest);
    let mut b: usize = n;
    assert(rest.take(n - a) =~= rest);
    while b > a && is_white_space(s[b - 1])
        invariant
            a <= b <= n,
            n == s@.len(),
            rest == s@.skip(a as int),
            trimmed_end(rest) == trimmed_end(rest.take(b - a)),
        decreases b,
    {
        assert(rest.take(b - a).drop_last() =~= rest.take(b - a - 1));
        b -= 1;
    }
    let r = &s[a..b];
    assert(r@ =~= rest.take(b - a));
    r
}

/// The position of the first `c` in `s` is the one index that holds `c`
/// with no `c` before it.
pub proof fn lemma_position(s: Seq<char>, c: char)
    ensures
        0 <= position(s, c) <= s.len(),
        position(s, c) < s.len() ==> s[position(s, c)] == c,
        forall|j: int| 0 <= j < position(s, c) ==> s[j] != c,
    decreases s.len(),
{
    if s.len() > 0 && s[0] != c {
        let rest = s.drop_first();
        lemma_position(rest, c);
        assert forall|j: int| 0 <= j < position(s, c) implies s[j] != c by {
            if j > 0 {
                assert(s[j] == rest[j - 1]);
            }
        }
    }
}

/// An index that holds `c` with no `c` before it is the position of `c`.
pub proof fn lemma_position_is(s: Seq<char>, c: char, i: int)
    requires
        0 <= i <= s.len(),
        i < s.len() ==> s[i] == c,
        forall|j: int| 0 <= j < i ==> s[j] != c,
    ensures
        position(s, c) == i,
    decreases s.len(),
{
    if s.len() > 0 && s[0] != c {
        let rest = s.drop_first();
        assert forall|j: int| 0 <= j < i - 1 implies rest[j] != c by {
            assert(rest[j] == s[j + 1]);
        }
        lemma_position_is(rest, c, i - 1);
    }
}

/// Splits `s` at its first `c`: what stands before it and what stands after
/// it, or `None` if `s` holds no `c`.
pub fn split_once(s: &[char], c: char) -> (r: Option<(&[char], &[char])>)
    ensures
        r is None <==> position(s@, c) == s@.len(),
        r matches Some((head, tail)) ==> head@ == before(s@, c) && tail@ == after(s@, c),
{
    let n = s.len();
    let mut i: usize = 0;
    while i < n && s[i] != c
        invariant
            i <= n,
            n == s@.len(),
            forall|j: int| 0 <= j < i ==> s@[j] != c,
        decreases n - i,
    {
        i += 1;
    }
    proof {
        lemma_position_is(s@, c, i as int);
    }
    if i < n {
        let head = &s[0..i];
        let tail = &s[i + 1..n];
        assert(head@ =~= before(s@, c));
        assert(tail@ =~= after(s@, c));
        Some((head, tail))
    } else {
        None
    }
}

/// `s` without the literal `suffix` at its end, or `s` itself if it does not
/// end with it.
pub fn strip_suffix<'a>(s: &'a [char], suffix: &str) -> (r: &'a [char])
    ensures
        r@ == without_suffix(s@, suffix@),
{
    let n = s.len();
    let k = suffix.unicode_len();
    if k <= n {
        let tail = &s[n - k..n];
        assert(tail@ =~= s@.skip(n - k));
        if spells(tail, suffix) {
            let r = &s[0..n - k];
            assert(r@ =~= s@.take(n - k));
            return r;
        }
    }
    s
}

/// A number in decimal digits is at least the number that any of its
/// prefixes denotes.
proof fn lemma_digits_value_grows(s: Seq<char>, i: int)
    requires
        0 <= i <= s.len(),
        all_digits(s),
    ensures
        digits_value(s.take(i)) <= digits_value(s),
    decreases s.len() - i,
{
    if i < s.len() {
        lemma_digits_value_grows(s, i + 1);
        assert(s.take(i + 1).drop_last() =~= s.take(i));
        assert('0' <= s[i] <= '9');
    } else {
        assert(s.take(i) =~= s);
    }
}

/// The unsigned decimal number that `s` spells, or the reason why it spells
/// none.
pub fn parse_u64(s: &[char]) -> (r: Result<u64, NumberError>)
    ensures
        r == unsigned_read(s@),
{
    let n = s.len();
    if n == 0 {
        return Err(NumberError::Empty);
    }
    let start: usize = if s[0] == '+' {
        1
    } else {
        0
    };
    let ghost digits = unsigned_digits(s@);
    assert(digits =~= s@.skip(start as int));
    if start == n {
        return Err(NumberError::InvalidDigit);
    }
    proof {
        lemma_digit_run(digits);
    }
    let ghost run = digit_run(digits);
    let mut value: u64 = 0;
    let mut i: usize = start;
    while i < n
        invariant
            start <= i <= n,
            0 < n == s@.len(),
            start < n,
            digits == s@.skip(start as int),
            digits == unsigned_digits(s@),
            run == digit_run(digits),
            0 <= run <= digits.len(),
            all_digits(digits.take(run)),
            run < digits.len() ==> !('0' <= digits[run] <= '9'),
            all_digits(digits.take(i - start)),
            value == digits_value(digits.take(i - start)),
        decreases n - i,
    {
        let c = s[i];
        assert(c == digits[i - start]);
        if !('0' <= c && c <= '9') {
            proof {
                // The digits end here: every character before is one.
                if run < i - start {
                    assert(digits.take(i - start)[run] == digits[run]);
                }
                if run > i - start {
                    assert(digits.take(run)[i - start] == c);
                }
                assert(run == i - start);
            }
            return Err(NumberError::InvalidDigit);
        }
        let d: u64 = (c as u32 - '0' as u32) as u64;
        let ghost upto = digits.take(i - start + 1);
        assert(upto.drop_last() =~= digits.take(i - start));
        assert(upto.last() == c);
        assert(digits_value(upto) == value * 10 + d);
        assert(all_digits(upto)) by {
            assert forall|j: int| 0 <= j < upto.len() implies '0' <= #[trigger] upto[j] <= '9' by {
                if j < i - start {
                    assert(upto[j] == digits.take(i - start)[j]);
                }
            }
        }
        let next = match value.checked_mul(10) {
            Some(v) => v.checked_add(d),
            None => None,
        };
        match next {
            Some(v) => {
                value = v;
            },
            None => {
                proof {
                    assert(digits_value(upto) > u64::MAX);
                    // The digits reach at least this far, and the number
                    // they denote is no less than the one read so far.
                    if run <= i - start {
                        assert(upto[run] == digits[run]);
                    }
                    assert(run >= i - start + 1);
                    assert(digits.take(run).take(i - start + 1) =~= upto);
                    lemma_digits_value_grows(digits.take(run), i - start + 1);
                    if all_digits(digits) {
                        lemma_digits_value_grows(digits, i - start + 1);
                    }
                }
                return Err(NumberError::Overflow);
            },
        }
        i += 1;
    }
    assert(digits.take(n - start) =~= digits);
    Ok(value)
}

} // verus!
