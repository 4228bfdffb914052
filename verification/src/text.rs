//! Strings as sequences of characters: decimal numerals, comparison and
//! splitting, with their mathematical meaning.

use vstd::prelude::*;

verus! {

/// The character of a decimal digit.
pub open spec fn digit_char(d: nat) -> char {
    if d == 0 {
        '0'
    } else if d == 1 {
        '1'
    } else if d == 2 {
        '2'
    } else if d == 3 {
        '3'
    } else if d == 4 {
        '4'
    } else if d == 5 {
        '5'
    } else if d == 6 {
        '6'
    } else if d == 7 {
        '7'
    } else if d == 8 {
        '8'
    } else {
        '9'
    }
}

/// Whether `c` is one of the ten ASCII digits.
pub open spec fn is_digit(c: char) -> bool {
    '0' <= c && c <= '9'
}

/// The number that a digit character stands for.
pub open spec fn digit_value(c: char) -> nat {
    (c as int - '0' as int) as nat
}

/// The decimal numeral of `n`, without leading zeros.
pub open spec fn decimal(n: nat) -> Seq<char>
    decreases n,
{
    if n < 10 {
        seq![digit_char(n)]
    } else {
        decimal(n / 10).push(digit_char(n % 10))
    }
}

/// The decimal numeral of a possibly negative number.
pub open spec fn decimal_int(n: int) -> Seq<char> {
    if n < 0 {
        seq!['-'] + decimal((-n) as nat)
    } else {
        decimal(n as nat)
    }
}

/// Whether every character is a digit.
pub open spec fn all_digits(s: Seq<char>) -> bool {
    forall|i: int| 0 <= i < s.len() ==> is_digit(#[trigger] s[i])
}

/// The number that a run of digits denotes.
pub open spec fn numeral_value(s: Seq<char>) -> nat
    decreases s.len(),
{
    if s.len() == 0 {
        0
    } else {
        numeral_value(s.drop_last()) * 10 + digit_value(s.last())
    }
}

/// The digits of an unsigned numeral: one leading `+` is allowed when
/// something follows it.
pub open spec fn unsigned_body(s: Seq<char>) -> Seq<char> {
    if s.len() > 1 && s[0] == '+' {
        s.subrange(1, s.len() as int)
    } else {
        s
    }
}

/// The number denoted by an unsigned numeral of at most `max`, if any.
pub open spec fn parse_unsigned(s: Seq<char>, max: nat) -> Option<nat> {
    let body = unsigned_body(s);
    if body.len() > 0 && all_digits(body) && numeral_value(body) <= max {
        Some(numeral_value(body))
    } else {
        None
    }
}

/// Why a numeral was refused.
#[derive(Clone, Copy, Debug, PartialEq, Eq, Structural)]
pub enum NumeralFault {
    Empty,
    InvalidDigit,
    TooLarge,
}

/// Why `s` is no unsigned numeral of at most `max`: the first character that
/// cannot be taken decides, and a bad digit wins over an overflow.
pub open spec fn numeral_fault(s: Seq<char>, max: nat) -> NumeralFault {
    let body = unsigned_body(s);
    if body.len() == 0 {
        NumeralFault::Empty
    } else {
        fault_in(body, max, 0)
    }
}

/// The fault met when the digits of `body` are read from position `i` on.
pub open spec fn fault_in(body: Seq<char>, max: nat, i: nat) -> NumeralFault
    decreases body.len() - i,
{
    if i >= body.len() {
        NumeralFault::TooLarge
    } else if !is_digit(body[i as int]) {
        NumeralFault::InvalidDigit
    } else if numeral_value(body.take(i as int + 1)) > max {
        NumeralFault::TooLarge
    } else {
        fault_in(body, max, i + 1)
    }
}

/// The text of a numeral fault.
pub open spec fn fault_text(f: NumeralFault) -> Seq<char> {
    match f {
        NumeralFault::Empty => "cannot parse integer from empty string"@,
        NumeralFault::InvalidDigit => "invalid digit found in string"@,
        NumeralFault::TooLarge => "number too large to fit in target type"@,
    }
}

impl NumeralFault {
    /// Describes the fault.
    pub fn describe(self) -> (r: String)
        ensures
            r@ == fault_text(self),
    {
        match self {
            NumeralFault::Empty => "cannot parse integer from empty string".to_owned(),
            NumeralFault::InvalidDigit => "invalid digit found in string".to_owned(),
            NumeralFault::TooLarge => "number too large to fit in target type".to_owned(),
        }
    }
}

/// A digit's value is smaller than ten, and a digit stands for its own value.
pub proof fn lemma_digit(d: nat)
    requires
        d < 10,
    ensures
        is_digit(digit_char(d)),
        digit_value(digit_char(d)) == d,
{
}

/// Decimal numerals are runs of digits that denote the number they were made
/// from: reading a written number gives it back.
pub proof fn lemma_decimal_round_trip(n: nat)
    ensures
        decimal(n).len() > 0,
        all_digits(decimal(n)),
        numeral_value(decimal(n)) == n,
    decreases n,
{
    if n < 10 {
        lemma_digit(n);
        let s = decimal(n);
        assert(s.drop_last() =~= Seq::<char>::empty());
        assert(numeral_value(s.drop_last()) == 0);
    } else {
        lemma_decimal_round_trip(n / 10);
        lemma_digit(n % 10);
        let s = decimal(n);
        assert(s.drop_last() =~= decimal(n / 10));
        assert(s.last() == digit_char(n % 10));
    }
}

/// Two numbers with the same numeral are the same number.
pub proof fn lemma_decimal_injective(a: nat, b: nat)
    requires
        decimal(a) == decimal(b),
    ensures
        a == b,
{
    lemma_decimal_round_trip(a);
    lemma_decimal_round_trip(b);
}

/// A written number parses back to itself.
pub proof fn lemma_parse_decimal(n: nat, max: nat)
    requires
        n <= max,
    ensures
        parse_unsigned(decimal(n), max) == Some(n),
{
    lemma_decimal_round_trip(n);
    assert(is_digit(decimal(n)[0]));
    assert(unsigned_body(decimal(n)) == decimal(n));
}

/// A longer run of digits denotes no smaller number.
proof fn lemma_numeral_prefix(s: Seq<char>, k: nat)
    requires
        k <= s.len(),
        all_digits(s),
    ensures
        numeral_value(s.take(k as int)) <= numeral_value(s),
    decreases s.len(),
{
    if k == s.len() {
        assert(s.take(k as int) =~= s);
    } else {
        assert(s.drop_last().take(k as int) =~= s.take(k as int));
        assert(all_digits(s.drop_last()));
        lemma_numeral_prefix(s.drop_last(), k);
        assert(numeral_value(s) == numeral_value(s.drop_last()) * 10 + digit_value(s.last()));
    }
}

/// The text of one decimal digit.
fn digit_text(d: u128) -> (r: &'static str)
    requires
        d < 10,
    ensures
        r@ == seq![digit_char(d as nat)],
{
    proof {
        reveal_strlit("0");
        reveal_strlit("1");
        reveal_strlit("2");
        reveal_strlit("3");
        reveal_strlit("4");
        reveal_strlit("5");
        reveal_strlit("6");
        reveal_strlit("7");
        reveal_strlit("8");
        reveal_strlit("9");
    }
    let r = if d == 0 {
        "0"
    } else if d == 1 {
        "1"
    } else if d == 2 {
        "2"
    } else if d == 3 {
        "3"
    } else if d == 4 {
        "4"
    } else if d == 5 {
        "5"
    } else if d == 6 {
        "6"
    } else if d == 7 {
        "7"
    } else if d == 8 {
        "8"
    } else {
        "9"
    };
    assert(r@ =~= seq![digit_char(d as nat)]);
    r
}

/// Writes a number in decimal.
pub fn u128_text(n: u128) -> (r: String)
    ensures
        r@ == decimal(n as nat),
    decreases n,
{
    if n < 10 {
        digit_text(n).to_owned()
    } else {
        let mut s = u128_text(n / 10);
        s.append(digit_text(n % 10));
        assert(s@ =~= decimal(n as nat));
        s
    }
}

/// Writes a number in decimal.
pub fn u64_text(n: u64) -> (r: String)
    ensures
        r@ == decimal(n as nat),
{
    u128_text(n as u128)
}

/// Writes a number in decimal, with a leading `-` when it is negative.
pub fn i128_text(n: i128) -> (r: String)
    ensures
        r@ == decimal_int(n as int),
{
    if n >= 0 {
        u128_text(n as u128)
    } else {
        let magnitude: u128 = if n == i128::MIN {
            170141183460469231731687303715884105728
        } else {
            (-n) as u128
        };
        let mut s = "-".to_owned();
        let digits = u128_text(magnitude);
        s.append(digits.as_str());
        proof {
            reveal_strlit("-");
            assert(s@ =~= seq!['-'] + decimal((-(n as int)) as nat));
        }
        s
    }
}

/// The characters of a string.
pub fn chars_of(s: &str) -> (r: Vec<char>)
    ensures
        r@ == s@,
{
    let mut r: Vec<char> = Vec::new();
    for c in it: s.chars()
        invariant
            it.seq() == s@,
            r@ == it.seq().take(it.index() as int),
    {
        r.push(c);
        assert(it.seq().take(it.index() + 1) =~= it.seq().take(it.index() as int).push(c));
    }
    assert(r@ =~= s@);
    r
}

/// Compares two strings for equality, as `str`'s `==` does: they are equal
/// exactly when they hold the same characters.
#[verifier::external_body]
pub(crate) fn str_eq(a: &str, b: &str) -> (r: bool)
    ensures
        r == (a@ == b@),
{
    a == b
}

/// Where `c` first occurs.
pub open spec fn first_index(s: Seq<char>, c: char) -> Option<nat>
    decreases s.len(),
{
    if s.len() == 0 {
        None
    } else if s[0] == c {
        Some(0)
    } else {
        match first_index(s.drop_first(), c) {
            Some(i) => Some(i + 1),
            None => None,
        }
    }
}

/// `first_index` is the least index that holds the character.
pub proof fn lemma_first_index(s: Seq<char>, c: char)
    ensures
        match first_index(s, c) {
            Some(i) => i < s.len() && s[i as int] == c && forall|j: int|
                0 <= j < i ==> s[j] != c,
            None => forall|j: int| 0 <= j < s.len() ==> s[j] != c,
        },
    decreases s.len(),
{
    if s.len() > 0 && s[0] != c {
        let t = s.drop_first();
        lemma_first_index(t, c);
        assert forall|j: int| 1 <= j < s.len() implies s[j] == t[j - 1] by {}
        match first_index(t, c) {
            Some(i) => {
                assert(s[i as int + 1] == c);
                assert forall|j: int| 0 <= j < i + 1 implies s[j] != c by {
                    if j > 0 {
                        assert(t[j - 1] != c);
                    }
                }
            },
            None => {
                assert forall|j: int| 0 <= j < s.len() implies s[j] != c by {
                    if j > 0 {
                        assert(t[j - 1] != c);
                    }
                }
            },
        }
    }
}

/// An index that holds the character, with none before it, is the first.
pub proof fn lemma_first_index_is(s: Seq<char>, c: char, i: nat)
    requires
        i < s.len(),
        s[i as int] == c,
        forall|j: int| 0 <= j < i ==> s[j] != c,
    ensures
        first_index(s, c) == Some(i),
{
    lemma_first_index(s, c);
    match first_index(s, c) {
        Some(k) => {
            if k < i {
                assert(s[k as int] != c);
            } else if i < k {
                assert(s[i as int] != c);
            }
        },
        None => {
            assert(s[i as int] != c);
        },
    }
}

/// Splits at the first occurrence of `c`, which belongs to neither part.
pub open spec fn split_once(s: Seq<char>, c: char) -> Option<(Seq<char>, Seq<char>)> {
    match first_index(s, c) {
        Some(i) => Some((s.take(i as int), s.skip(i as int + 1))),
        None => None,
    }
}

/// Splits a string at the first occurrence of `c`.
pub fn split_at_first<'a>(s: &'a str, c: char) -> (r: Option<(&'a str, &'a str)>)
    ensures
        match r {
            Some((a, b)) => split_once(s@, c) == Some((a@, b@)),
            None => split_once(s@, c) is None,
        },
{
    let chars = chars_of(s);
    let n: usize = chars.len();
    let mut i: usize = 0;
    while i < n
        invariant
            n == chars@.len(),
            chars@ == s@,
            i <= n,
            forall|j: int| 0 <= j < i ==> s@[j] != c,
        decreases n - i,
    {
        if chars[i] == c {
            proof {
                lemma_first_index_is(s@, c, i as nat);
                assert(s@.subrange(0, i as int) =~= s@.take(i as int));
                assert(s@.subrange(i + 1, n as int) =~= s@.skip(i + 1));
            }
            return Some((s.substring_char(0, i), s.substring_char(i + 1, n)));
        }
        i += 1;
    }
    proof {
        lemma_first_index(s@, c);
    }
    None
}

/// Reads an unsigned numeral of at most `max`: digits, with one leading `+`
/// allowed in front of them.
pub fn parse_text(s: &str, max: u64) -> (r: Result<u64, NumeralFault>)
    ensures
        match r {
            Ok(v) => parse_unsigned(s@, max as nat) == Some(v as nat),
            Err(f) => parse_unsigned(s@, max as nat) is None && f == numeral_fault(s@, max as nat),
        },
{
    let chars = chars_of(s);
    let n: usize = chars.len();
    let start: usize = if n > 1 && chars[0] == '+' {
        1
    } else {
        0
    };
    let ghost body = unsigned_body(s@);
    if n == 0 {
        return Err(NumeralFault::Empty);
    }
    assert(body =~= s@.subrange(start as int, n as int));
    let mut value: u64 = 0;
    let mut i: usize = start;
    assert(body.take(0) =~= Seq::<char>::empty());
    while i < n
        invariant
            n == chars@.len(),
            chars@ == s@,
            start <= i <= n,
            start < n,
            body == s@.subrange(start as int, n as int),
            body == unsigned_body(s@),
            all_digits(body.take(i - start)),
            value == numeral_value(body.take(i - start)),
            value <= max,
            fault_in(body, max as nat, 0) == fault_in(body, max as nat, (i - start) as nat),
        decreases n - i,
    {
        let c = chars[i];
        let ghost k = i - start;
        assert(body[k] == c);
        if c < '0' || c > '9' {
            assert(!all_digits(body));
            return Err(NumeralFault::InvalidDigit);
        }
        let d: u64 = (c as u32 - '0' as u32) as u64;
        let next: u128 = value as u128 * 10 + d as u128;
        proof {
            assert(body.take(k + 1).drop_last() =~= body.take(k));
            assert(body.take(k + 1).last() == c);
            assert(numeral_value(body.take(k + 1)) == next);
        }
        if next > max as u128 {
            proof {
                if all_digits(body) {
                    lemma_numeral_prefix(body, (k + 1) as nat);
                }
            }
            return Err(NumeralFault::TooLarge);
        }
        value = next as u64;
        proof {
            assert forall|j: int| 0 <= j < k + 1 implies is_digit(#[trigger] body.take(k + 1)[j]) by {
                if j < k {
                    assert(body.take(k)[j] == body.take(k + 1)[j]);
                }
            }
        }
        i += 1;
    }
    assert(body.take(n - start) =~= body);
    Ok(value)
}

/// Reads an unsigned 64-bit numeral.
pub fn parse_u64(s: &str) -> (r: Result<u64, NumeralFault>)
    ensures
        match r {
            Ok(v) => parse_unsigned(s@, u64::MAX as nat) == Some(v as nat),
            Err(f) => parse_unsigned(s@, u64::MAX as nat) is None && f == numeral_fault(
                s@,
                u64::MAX as nat,
            ),
        },
{
    parse_text(s, u64::MAX)
}

/// Reads an unsigned 32-bit numeral.
pub fn parse_u32(s: &str) -> (r: Result<u32, NumeralFault>)
    ensures
        match r {
            Ok(v) => parse_unsigned(s@, u32::MAX as nat) == Some(v as nat),
            Err(f) => parse_unsigned(s@, u32::MAX as nat) is None && f == numeral_fault(
                s@,
                u32::MAX as nat,
            ),
        },
{
    match parse_text(s, u32::MAX as u64) {
        Ok(v) => Ok(v as u32),
        Err(f) => Err(f),
    }
}

/// The strings of a list, as sequences of characters.
pub open spec fn texts(v: Seq<String>) -> Seq<Seq<char>> {
    Seq::new(v.len(), |i: int| v[i]@)
}

/// Joins strings with a separator between neighbours.
pub open spec fn joined(parts: Seq<Seq<char>>, sep: Seq<char>) -> Seq<char>
    decreases parts.len(),
{
    if parts.len() == 0 {
        Seq::empty()
    } else if parts.len() == 1 {
        parts[0]
    } else {
        joined(parts.drop_last(), sep) + sep + parts.last()
    }
}

/// Joins strings with a separator between neighbours.
pub fn join(parts: &Vec<String>, sep: &str) -> (r: String)
    ensures
        r@ == joined(texts(parts@), sep@),
{
    let mut r = String::new();
    let mut i: usize = 0;
    while i < parts.len()
        invariant
            i <= parts@.len(),
            r@ == joined(texts(parts@).take(i as int), sep@),
        decreases parts.len() - i,
    {
        let ghost all = texts(parts@);
        proof {
            assert(all.take(i + 1).drop_last() =~= all.take(i as int));
            assert(all.take(i + 1).last() == parts@[i as int]@);
        }
        if i > 0 {
            r.append(sep);
        }
        r.append(parts[i].as_str());
        proof {
            if i == 0 {
                assert(r@ =~= parts@[0]@);
            }
        }
        i += 1;
    }
    assert(texts(parts@).take(i as int) =~= texts(parts@));
    r
}

/// The text of an optional string.
pub open spec fn option_text(v: Option<String>) -> Option<Seq<char>> {
    match v {
        Some(s) => Some(s@),
        None => None,
    }
}

/// Clones an optional string.
pub fn clone_option(v: &Option<String>) -> (r: Option<String>)
    ensures
        r == *v,
{
    match v {
        Some(s) => Some(s.clone()),
        None => None,
    }
}

/// Clones a list of strings.
pub fn clone_texts(v: &Vec<String>) -> (r: Vec<String>)
    ensures
        r@ == v@,
{
    let mut r: Vec<String> = Vec::new();
    let mut i: usize = 0;
    while i < v.len()
        invariant
            i <= v@.len(),
            r@ == v@.take(i as int),
        decreases v.len() - i,
    {
        r.push(v[i].clone());
        assert(v@.take(i + 1) =~= v@.take(i as int).push(v@[i as int]));
        i += 1;
    }
    assert(v@.take(i as int) =~= v@);
    r
}

/// Whether a list of strings holds a given one.
pub fn contains_text(v: &Vec<String>, s: &str) -> (r: bool)
    ensures
        r == texts(v@).contains(s@),
{
    let mut i: usize = 0;
    while i < v.len()
        invariant
            i <= v@.len(),
            forall|j: int| 0 <= j < i ==> v@[j]@ != s@,
        decreases v.len() - i,
    {
        if str_eq(v[i].as_str(), s) {
            assert(texts(v@)[i as int] == s@);
            return true;
        }
        i += 1;
    }
    proof {
        if texts(v@).contains(s@) {
            let j = choose|j: int| 0 <= j < texts(v@).len() && texts(v@)[j] == s@;
            assert(v@[j]@ == s@);
        }
    }
    false
}

/// The text that `Debug` of std writes for a string: the string in double
/// quotes, with special characters escaped.
pub uninterp spec fn debug_text(s: Seq<char>) -> Seq<char>;

/// Wraps std's `Debug` of `str`. What it writes is a function of the string
/// alone; which characters are escaped is not spelled out here.
#[verifier::external_body]
pub(crate) fn str_debug(s: &str) -> (r: String)
    ensures
        r@ == debug_text(s@),
{
    format!("{:?}", s)
}

/// The text that bytes are read as, with what is no UTF-8 replaced.
pub uninterp spec fn lossy_text(bytes: Seq<u8>) -> Seq<char>;

/// Reads bytes with std's `String::from_utf8_lossy`. Valid UTF-8 is read as
/// the text that it encodes; what invalid bytes are read as is a function of
/// the bytes and is not spelled out here.
#[verifier::external_body]
pub(crate) fn utf8_lossy(bytes: &[u8]) -> (r: String)
    ensures
        r@ == lossy_text(bytes@),
        vstd::utf8::valid_utf8(bytes@) ==> r@ == vstd::utf8::decode_utf8(bytes@),
{
    String::from_utf8_lossy(bytes).into_owned()
}

/// Whether a character is white space, as Unicode has it.
pub open spec fn is_space(c: char) -> bool {
    let n = c as u32;
    ||| 0x9 <= n <= 0xd
    ||| n == 0x20 || n == 0x85 || n == 0xa0 || n == 0x1680
    ||| 0x2000 <= n <= 0x200a
    ||| n == 0x2028 || n == 0x2029 || n == 0x202f || n == 0x205f || n == 0x3000
}

/// A text without the white space in front.
pub open spec fn trim_front(s: Seq<char>) -> Seq<char>
    decreases s.len(),
{
    if s.len() > 0 && is_space(s[0]) {
        trim_front(s.drop_first())
    } else {
        s
    }
}

/// A text without the white space at the end.
pub open spec fn trim_back(s: Seq<char>) -> Seq<char>
    decreases s.len(),
{
    if s.len() > 0 && is_space(s.last()) {
        trim_back(s.drop_last())
    } else {
        s
    }
}

/// A text without the white space around it.
pub open spec fn trimmed(s: Seq<char>) -> Seq<char> {
    trim_back(trim_front(s))
}

/// Whether a character is white space.
fn char_is_space(c: char) -> (r: bool)
    ensures
        r == is_space(c),
{
    let n: u32 = c as u32;
    (0x9 <= n && n <= 0xd) || n == 0x20 || n == 0x85 || n == 0xa0 || n == 0x1680 || (0x2000 <= n
        && n <= 0x200a) || n == 0x2028 || n == 0x2029 || n == 0x202f || n == 0x205f || n == 0x3000
}

/// A string without the white space around it.
pub fn trim(s: &str) -> (r: String)
    ensures
        r@ == trimmed(s@),
{
    let chars = chars_of(s);
    let n: usize = chars.len();
    let mut from: usize = 0;
    assert(s@.skip(0) =~= s@);
    while from < n && char_is_space(chars[from])
        invariant
            n == chars@.len(),
            chars@ == s@,
            from <= n,
            trim_front(s@) == trim_front(s@.skip(from as int)),
        decreases n - from,
    {
        assert(s@.skip(from as int).drop_first() =~= s@.skip(from + 1));
        from += 1;
    }
    let ghost body = s@.skip(from as int);
    assert(trim_front(s@) == body);
    let mut to: usize = n;
    assert(body.take(n - from) =~= body);
    while to > from && char_is_space(chars[to - 1])
        invariant
            n == chars@.len(),
            chars@ == s@,
            from <= to <= n,
            body == s@.skip(from as int),
            trim_back(body) == trim_back(body.take(to - from)),
        decreases to,
    {
        assert(body.take(to - from).drop_last() =~= body.take(to - from - 1));
        to -= 1;
    }
    assert(s@.subrange(from as int, to as int) =~= body.take(to - from));
    s.substring_char(from, to).to_owned()
}

/// A text that neither begins nor ends with white space stays as it is, and a
/// line end behind it is cut off.
pub proof fn lemma_trim_line(s: Seq<char>)
    requires
        s.len() > 0,
        !is_space(s[0]),
        !is_space(s.last()),
    ensures
        trimmed(s) == s,
        trimmed(s.push('\n')) == s,
{
    let t = s.push('\n');
    assert(t[0] == s[0]);
    assert(t.last() == '\n');
    assert(t.drop_last() =~= s);
    reveal_with_fuel(trim_back, 2);
}

/// A text splits at the first separator: what comes before it holds none.
pub proof fn lemma_split_at(front: Seq<char>, c: char, back: Seq<char>)
    requires
        !front.contains(c),
    ensures
        split_once(front + seq![c] + back, c) == Some((front, back)),
{
    let s = front + seq![c] + back;
    let n = front.len();
    assert(s[n as int] == c);
    assert forall|j: int| 0 <= j < n implies s[j] != c by {
        assert(s[j] == front[j]);
        assert(front.contains(front[j]));
    }
    lemma_first_index_is(s, c, n);
    assert(s.take(n as int) =~= front);
    assert(s.skip(n as int + 1) =~= back);
}

/// A text without the separator does not split.
pub proof fn lemma_no_split(s: Seq<char>, c: char)
    requires
        !s.contains(c),
    ensures
        split_once(s, c) is None,
{
    lemma_first_index(s, c);
    match first_index(s, c) {
        Some(i) => {
            assert(s.contains(s[i as int]));
        },
        None => {},
    }
}

/// One more digit makes a numeral ten times as high, and the digit more.
pub proof fn lemma_numerals_by_digits(s: Seq<char>, d: nat)
    requires
        d < 10,
    ensures
        numeral_value(s.push(digit_char(d))) == numeral_value(s) * 10 + d,
        numeral_value(Seq::empty()) == 0,
{
    lemma_digit(d);
    assert(s.push(digit_char(d)).drop_last() =~= s);
}

/// What is read as a number: digits, and at least one, that do not exceed the
/// bound. A sign in front of them is passed over; anything else is not read.
pub proof fn lemma_numbers_read_exactly(s: Seq<char>, max: nat)
    ensures
        s.len() > 0 && (forall|i: int| 0 <= i < s.len() ==> '0' <= #[trigger] s[i] <= '9') ==> {
            &&& numeral_value(s) <= max ==> parse_unsigned(s, max) == Some(numeral_value(s))
            &&& numeral_value(s) > max ==> parse_unsigned(s, max) is None
            &&& parse_unsigned(seq!['+'] + s, max) == parse_unsigned(s, max)
        },
        s.len() == 0 ==> parse_unsigned(s, max) is None,
        (exists|i: int| 1 <= i < s.len() && !('0' <= #[trigger] s[i] <= '9')) ==> parse_unsigned(
            s,
            max,
        ) is None,
{
    let signed = seq!['+'] + s;
    assert(signed.subrange(1, signed.len() as int) =~= s);
    if s.len() > 0 && (forall|i: int| 0 <= i < s.len() ==> '0' <= #[trigger] s[i] <= '9') {
        assert('0' <= s[0] <= '9');
    }
    if exists|i: int| 1 <= i < s.len() && !('0' <= #[trigger] s[i] <= '9') {
        let i = choose|i: int| 1 <= i < s.len() && !('0' <= #[trigger] s[i] <= '9');
        let body = unsigned_body(s);
        if s[0] == '+' {
            assert(body[i - 1] == s[i]);
        } else {
            assert(body[i] == s[i]);
        }
    }
}

/// Trimming takes the blanks off both ends and nothing else: what is left
/// stands between blanks, and neither begins nor ends with one.
pub proof fn lemma_trimming_is_exact(s: Seq<char>)
    ensures
        ({
            let t = trimmed(s);
            &&& t.len() > 0 ==> !is_space(t[0]) && !is_space(t.last())
            &&& exists|i: int|
                #![trigger s.subrange(i, i + t.len())]
                0 <= i <= i + t.len() <= s.len() && s.subrange(i, i + t.len()) == t && (forall|
                    k: int,
                |
                    0 <= k < i ==> is_space(#[trigger] s[k])) && (forall|k: int|
                    i + t.len() <= k < s.len() ==> is_space(#[trigger] s[k]))
        }),
{
    let f = trim_front(s);
    let i = lemma_trim_front_exact(s);
    lemma_trim_back_exact(f);
    let t = trimmed(s);
    assert(f == s.skip(i));
    assert(t == f.take(t.len() as int));
    assert(s.subrange(i, i + t.len()) =~= t);
    assert forall|k: int| i + t.len() <= k < s.len() implies is_space(#[trigger] s[k]) by {
        assert(f[k - i] == s[k]);
    }
    if t.len() > 0 {
        assert(t[0] == f[0]);
    }
}

proof fn lemma_trim_front_exact(s: Seq<char>) -> (i: int)
    ensures
        0 <= i <= s.len(),
        trim_front(s) == s.skip(i),
        forall|k: int| 0 <= k < i ==> is_space(#[trigger] s[k]),
        i < s.len() ==> !is_space(s[i]),
    decreases s.len(),
{
    if s.len() > 0 && is_space(s[0]) {
        let j = lemma_trim_front_exact(s.drop_first());
        assert(s.skip(j + 1) =~= s.drop_first().skip(j));
        assert forall|k: int| 0 <= k < j + 1 implies is_space(#[trigger] s[k]) by {
            if k > 0 {
                assert(s.drop_first()[k - 1] == s[k]);
            }
        }
        if j + 1 < s.len() {
            assert(s.drop_first()[j] == s[j + 1]);
        }
        j + 1
    } else {
        assert(s.skip(0) =~= s);
        0
    }
}

proof fn lemma_trim_back_exact(s: Seq<char>)
    ensures
        trim_back(s).len() <= s.len(),
        trim_back(s) == s.take(trim_back(s).len() as int),
        forall|k: int| trim_back(s).len() <= k < s.len() ==> is_space(#[trigger] s[k]),
        trim_back(s).len() > 0 ==> !is_space(trim_back(s).last()),
    decreases s.len(),
{
    if s.len() > 0 && is_space(s.last()) {
        let less = s.drop_last();
        lemma_trim_back_exact(less);
        assert(s.take(trim_back(s).len() as int) =~= less.take(trim_back(s).len() as int));
        assert forall|k: int| trim_back(s).len() <= k < s.len() implies is_space(
            #[trigger] s[k],
        ) by {
            if k < less.len() {
                assert(less[k] == s[k]);
            }
        }
    } else {
        assert(s.take(s.len() as int) =~= s);
    }
}

/// A list of texts is joined with the separator between every two of them.
pub proof fn lemma_joining_is_exact(parts: Seq<Seq<char>>, last: Seq<char>, sep: Seq<char>)
    ensures
        joined(Seq::empty(), sep) == Seq::<char>::empty(),
        parts.len() == 0 ==> joined(parts.push(last), sep) == last,
        parts.len() > 0 ==> joined(parts.push(last), sep) == joined(parts, sep) + sep + last,
{
    assert(parts.push(last).drop_last() =~= parts);
}

/// A negative number is spelled with a sign in front.
pub proof fn lemma_signs_are_spelled(n: nat)
    ensures
        decimal_int(n as int) == decimal(n),
        n > 0 ==> decimal_int(-(n as int)) == seq!['-'] + decimal(n),
{
}

/// Different numbers are spelled differently, negative ones too.
pub proof fn lemma_decimal_int_injective(a: int, b: int)
    requires
        decimal_int(a) == decimal_int(b),
    ensures
        a == b,
{
    let x = decimal(if a < 0 {
        (-a) as nat
    } else {
        a as nat
    });
    let y = decimal(if b < 0 {
        (-b) as nat
    } else {
        b as nat
    });
    lemma_decimal_round_trip(if a < 0 {
        (-a) as nat
    } else {
        a as nat
    });
    lemma_decimal_round_trip(if b < 0 {
        (-b) as nat
    } else {
        b as nat
    });
    assert(is_digit(x[0]) && is_digit(y[0]));
    assert(decimal_int(a)[0] == decimal_int(b)[0]);
    if a < 0 {
        assert(decimal_int(a)[0] == '-');
        assert(b < 0);
        assert(decimal_int(a).skip(1) =~= x);
        assert(decimal_int(b).skip(1) =~= y);
    } else if b < 0 {
        assert(decimal_int(b)[0] == '-');
    }
}

proof fn lemma_digits_are_too_large(body: Seq<char>, max: nat, i: nat)
    requires
        all_digits(body),
        i <= body.len(),
    ensures
        fault_in(body, max, i) is TooLarge,
    decreases body.len() - i,
{
    if i < body.len() {
        assert(is_digit(body[i as int]));
        lemma_digits_are_too_large(body, max, i + 1);
    }
}

/// Why text is not read as a number: it is empty, it holds what is no digit, or
/// the number is too large. Digits alone fail only by being too large, and what
/// begins with something else, or is a sign alone, fails by it.
pub proof fn lemma_faults_are_told(s: Seq<char>, max: nat)
    ensures
        s.len() == 0 ==> numeral_fault(s, max) is Empty,
        s.len() > 0 && (forall|i: int| 0 <= i < s.len() ==> '0' <= #[trigger] s[i] <= '9')
            ==> numeral_fault(s, max) is TooLarge,
        s.len() > 0 && !('0' <= s[0] <= '9') && s[0] != '+' ==> numeral_fault(s, max)
            is InvalidDigit,
        s.len() == 1 && s[0] == '+' ==> numeral_fault(s, max) is InvalidDigit,
{
    if s.len() > 0 && (forall|i: int| 0 <= i < s.len() ==> '0' <= #[trigger] s[i] <= '9') {
        assert('0' <= s[0] <= '9');
        assert forall|i: int| 0 <= i < s.len() implies is_digit(#[trigger] s[i]) by {}
        lemma_digits_are_too_large(s, max, 0);
    }
}

/// The blanks: of the plain characters the space, the tabulator and the ends of
/// line and page, and of the others those that Unicode counts as white space.
pub proof fn lemma_blanks(c: char)
    ensures
        (c as u32) < 0x80 ==> (is_space(c) <==> c == ' ' || c == '\t' || c == '\n' || c == '\r'
            || c as u32 == 0xb || c as u32 == 0xc),
        (c as u32) >= 0x80 ==> (is_space(c) <==> c as u32 == 0x85 || c as u32 == 0xa0 || c as u32
            == 0x1680 || 0x2000 <= c as u32 <= 0x200a || 0x2028 <= c as u32 <= 0x2029 || c as u32
            == 0x202f || c as u32 == 0x205f || c as u32 == 0x3000),
{
}

} // verus!
