//! Character-level helpers shared by the parser, the encoder and the driver.

use vstd::prelude::*;
use vstd::string::*;

verus! {

/// `String::push` appends the given character to the end of the string
/// and leaves the characters before it as they were.
pub assume_specification[ String::push ](s: &mut String, c: char)
    ensures
        final(s)@ == old(s)@.push(c),
;

/// The characters of an optional string.
pub open spec fn field_text(field: Option<String>) -> Option<Seq<char>> {
    match field {
        Some(s) => Some(s@),
        None => None,
    }
}

/// Copies the characters of `s` into a vector, so that they can be indexed in constant time.
pub fn chars_of(s: &str) -> (v: Vec<char>)
    ensures
        v@ == s@,
{
    let mut v: Vec<char> = Vec::new();
    for c in it: s.chars()
        invariant
            it.seq() == s@,
            v@ == s@.take(it.index()),
    {
        v.push(c);
    }
    v
}

/// Builds the string made of the characters `v[from..to]`.
pub(crate) fn string_of(v: &Vec<char>, from: usize, to: usize) -> (s: String)
    requires
        from <= to <= v.len(),
    ensures
        s@ == v@.subrange(from as int, to as int),
{
    let mut s = String::new();
    let mut i: usize = from;
    while i < to
        invariant
            from <= i <= to <= v.len(),
            s@ == v@.subrange(from as int, i as int),
        decreases to - i,
    {
        s.push(v[i]);
        i += 1;
    }
    s
}

/// Whether the characters of `v` spell exactly `word`.
pub fn spells(v: &Vec<char>, word: &str) -> (r: bool)
    ensures
        r == (v@ == word@),
{
    let n: usize = word.unicode_len();
    if v.len() != n {
        return false;
    }
    let mut i: usize = 0;
    while i < n
        invariant
            n == word@.len(),
            v.len() == n,
            i <= n,
            v@.take(i as int) == word@.take(i as int),
        decreases n - i,
    {
        if v[i] != word.get_char(i) {
            return false;
        }
        i += 1;
    }
    assert(v@ =~= v@.take(n as int) && word@ =~= word@.take(n as int));
    true
}

/// The length of a string and its first seven characters, with blanks where
/// the string has fewer. Two strings of at most seven characters are the same
/// string exactly if they agree in this.
pub open spec fn spelling(s: Seq<char>) -> (nat, char, char, char, char, char, char, char) {
    let at = |i: int|
        if i < s.len() {
            s[i]
        } else {
            ' '
        };
    (s.len(), at(0), at(1), at(2), at(3), at(4), at(5), at(6))
}

/// Whether `c` is white space, as Unicode defines it.
pub open spec fn is_space(c: char) -> bool {
    let u = c as u32;
    ||| 0x09 <= u <= 0x0D
    ||| u == 0x20
    ||| u == 0x85
    ||| u == 0xA0
    ||| u == 0x1680
    ||| 0x2000 <= u <= 0x200A
    ||| u == 0x2028
    ||| u == 0x2029
    ||| u == 0x202F
    ||| u == 0x205F
    ||| u == 0x3000
}

/// A class of characters that can be stripped from the ends of a string.
#[derive(Clone, Copy, Debug, PartialEq, Eq, Structural)]
pub enum CharClass {
    /// White space.
    Space,
    /// The two round brackets.
    Paren,
}

impl CharClass {
    /// Whether `c` belongs to the class.
    pub open spec fn holds(self, c: char) -> bool {
        match self {
            CharClass::Space => is_space(c),
            CharClass::Paren => c == '(' || c == ')',
        }
    }

    /// Whether `c` belongs to the class.
    pub fn contains(&self, c: char) -> (r: bool)
        ensures
            r == self.holds(c),
    {
        match self {
            CharClass::Space => {
                let u = c as u32;
                (0x09 <= u && u <= 0x0D) || u == 0x20 || u == 0x85 || u == 0xA0 || u == 0x1680 || (
                0x2000 <= u && u <= 0x200A) || u == 0x2028 || u == 0x2029 || u == 0x202F || u
                    == 0x205F || u == 0x3000
            },
            CharClass::Paren => c == '(' || c == ')',
        }
    }
}

/// How many characters at the start of `s` belong to `class`.
pub open spec fn leading(s: Seq<char>, class: CharClass) -> nat
    decreases s.len(),
{
    if s.len() > 0 && class.holds(s[0]) {
        1 + leading(s.skip(1), class)
    } else {
        0
    }
}

/// How many characters at the end of `s` belong to `class`.
pub open spec fn trailing(s: Seq<char>, class: CharClass) -> nat
    decreases s.len(),
{
    if s.len() > 0 && class.holds(s.last()) {
        1 + trailing(s.drop_last(), class)
    } else {
        0
    }
}

/// `s` without the characters of `class` at its start and, after that, at its end.
pub open spec fn strip(s: Seq<char>, class: CharClass) -> Seq<char> {
    let rest = s.skip(leading(s, class) as int);
    rest.take(rest.len() - trailing(rest, class))
}

/// The leading run of `class` lies within the string, holds characters of
/// the class only, and ends before a character that is not of the class.
pub proof fn lemma_leading(s: Seq<char>, class: CharClass)
    ensures
        leading(s, class) <= s.len(),
        forall|i: int| 0 <= i < leading(s, class) ==> class.holds(#[trigger] s[i]),
        leading(s, class) < s.len() ==> !class.holds(s[leading(s, class) as int]),
    decreases s.len(),
{
    if s.len() > 0 && class.holds(s[0]) {
        lemma_leading(s.skip(1), class);
        assert forall|i: int| 0 <= i < leading(s, class) implies class.holds(#[trigger] s[i]) by {
            if i > 0 {
                assert(s.skip(1)[i - 1] == s[i]);
            }
        }
    }
}

/// The trailing run of `class` lies within the string, holds characters of
/// the class only, and starts behind a character that is not of the class.
pub proof fn lemma_trailing(s: Seq<char>, class: CharClass)
    ensures
        trailing(s, class) <= s.len(),
        forall|i: int| s.len() - trailing(s, class) <= i < s.len() ==> class.holds(#[trigger] s[i]),
        trailing(s, class) < s.len() ==> !class.holds(s[s.len() - trailing(s, class) - 1]),
    decreases s.len(),
{
    if s.len() > 0 && class.holds(s.last()) {
        lemma_trailing(s.drop_last(), class);
        assert forall|i: int| s.len() - trailing(s, class) <= i < s.len() implies class.holds(
            #[trigger] s[i],
        ) by {
            if i < s.len() - 1 {
                assert(s.drop_last()[i] == s[i]);
            }
        }
    }
}

/// A string of nothing but characters of `class` is a leading run as a whole.
pub proof fn lemma_leading_all(s: Seq<char>, class: CharClass)
    requires
        forall|i: int| 0 <= i < s.len() ==> class.holds(#[trigger] s[i]),
    ensures
        leading(s, class) == s.len(),
    decreases s.len(),
{
    if s.len() > 0 {
        assert(class.holds(s[0]));
        assert forall|i: int| 0 <= i < s.skip(1).len() implies class.holds(
            #[trigger] s.skip(1)[i],
        ) by {
            assert(s.skip(1)[i] == s[i + 1]);
        }
        lemma_leading_all(s.skip(1), class);
    }
}

/// What is left after stripping is a part of the string that neither starts
/// nor ends with a character of the class.
pub proof fn lemma_strip(s: Seq<char>, class: CharClass)
    ensures
        ({
            let from = leading(s, class) as int;
            let to = s.len() - trailing(s.skip(from), class);
            &&& 0 <= from <= to <= s.len()
            &&& strip(s, class) == s.subrange(from, to)
        }),
        strip(s, class).len() > 0 ==> !class.holds(strip(s, class)[0]) && !class.holds(
            strip(s, class).last(),
        ),
{
    lemma_leading(s, class);
    let from = leading(s, class) as int;
    let rest = s.skip(from);
    lemma_trailing(rest, class);
    let to = s.len() - trailing(rest, class);
    assert(strip(s, class) =~= s.subrange(from, to));
    if strip(s, class).len() > 0 {
        assert(rest[0] == s[from]);
        assert(trailing(rest, class) < rest.len());
    }
}

/// Finds the part of `v[lo..hi]` that is left when the characters of `class`
/// are stripped from both ends.
pub(crate) fn strip_bounds(v: &Vec<char>, lo: usize, hi: usize, class: CharClass) -> (r: (usize, usize))
    requires
        lo <= hi <= v.len(),
    ensures
        lo <= r.0 <= r.1 <= hi,
        r.0 - lo == leading(v@.subrange(lo as int, hi as int), class),
        hi - r.1 == trailing(v@.subrange(r.0 as int, hi as int), class),
        v@.subrange(r.0 as int, r.1 as int) == strip(v@.subrange(lo as int, hi as int), class),
{
    let ghost whole = v@.subrange(lo as int, hi as int);
    let mut a: usize = lo;
    while a < hi && class.contains(v[a])
        invariant
            lo <= a <= hi <= v.len(),
            leading(whole, class) == (a - lo) + leading(v@.subrange(a as int, hi as int), class),
            whole == v@.subrange(lo as int, hi as int),
        decreases hi - a,
    {
        assert(v@.subrange(a as int, hi as int).skip(1) =~= v@.subrange(a + 1, hi as int));
        a += 1;
    }
    let ghost rest = v@.subrange(a as int, hi as int);
    assert(whole.skip(a - lo) =~= rest);
    let mut b: usize = hi;
    while b > a && class.contains(v[b - 1])
        invariant
            a <= b <= hi <= v.len(),
            rest == v@.subrange(a as int, hi as int),
            trailing(rest, class) == (hi - b) + trailing(v@.subrange(a as int, b as int), class),
        decreases b - a,
    {
        assert(v@.subrange(a as int, b as int).drop_last() =~= v@.subrange(a as int, b - 1));
        b -= 1;
    }
    assert(rest.take(rest.len() - (hi - b)) =~= v@.subrange(a as int, b as int));
    (a, b)
}

/// Whether `c` is one of the ten decimal digits.
pub open spec fn is_digit(c: char) -> bool {
    '0' as u32 <= c as u32 <= '9' as u32
}

/// Whether `s` is a non-empty string of decimal digits.
pub open spec fn is_decimal(s: Seq<char>) -> bool {
    s.len() > 0 && forall|i: int| 0 <= i < s.len() ==> is_digit(#[trigger] s[i])
}

/// The number that a string of decimal digits denotes.
pub open spec fn decimal_value(s: Seq<char>) -> nat
    decreases s.len(),
{
    if s.len() == 0 {
        0
    } else {
        decimal_value(s.drop_last()) * 10 + (s.last() as u32 - '0' as u32) as nat
    }
}

/// The number that `digits` denotes behind a sign, where that number can be
/// an address: decimal digits with a value from 0 to 2147483647, and of a
/// number written with a minus sign only zero.
pub open spec fn digits_literal(digits: Seq<char>, minus: bool) -> Option<nat> {
    if is_decimal(digits) && decimal_value(digits) <= i32::MAX && (minus ==> decimal_value(digits)
        == 0) {
        Some(decimal_value(digits))
    } else {
        None
    }
}

/// The number that `s` denotes where it is written as an address: an optional
/// sign and decimal digits, with a value from 0 to 2147483647. Any other
/// string, a negative number among them, is a name and not a number.
pub open spec fn number_literal(s: Seq<char>) -> Option<nat> {
    if s.len() > 0 && (s[0] == '+' || s[0] == '-') {
        digits_literal(s.skip(1), s[0] == '-')
    } else {
        digits_literal(s, false)
    }
}

/// A longer string of digits denotes no smaller number than its prefixes.
pub proof fn lemma_decimal_value_prefix(s: Seq<char>, k: int)
    requires
        0 <= k <= s.len(),
    ensures
        decimal_value(s.take(k)) <= decimal_value(s),
    decreases s.len(),
{
    if k == s.len() {
        assert(s.take(k) =~= s);
    } else {
        assert(s.drop_last().take(k) =~= s.take(k));
        lemma_decimal_value_prefix(s.drop_last(), k);
    }
}

/// Reads `v[start..]` as the digits of an address.
fn parse_digits(v: &Vec<char>, start: usize, minus: bool) -> (r: Option<u32>)
    requires
        start <= v.len(),
    ensures
        match digits_literal(v@.skip(start as int), minus) {
            Some(n) => r == Some(n as u32) && n <= i32::MAX,
            None => r is None,
        },
{
    let n: usize = v.len();
    let ghost digits = v@.skip(start as int);
    if start == n {
        return None;
    }
    let mut value: u32 = 0;
    let mut i: usize = start;
    while i < n
        invariant
            start <= i <= n == v.len(),
            digits == v@.skip(start as int),
            value == decimal_value(digits.take(i - start)),
            value <= i32::MAX,
            forall|j: int| 0 <= j < i - start ==> is_digit(#[trigger] digits[j]),
        decreases n - i,
    {
        let c: u32 = v[i] as u32;
        assert(digits[i - start] == v[i as int]);
        if c < '0' as u32 || c > '9' as u32 {
            return None;
        }
        let d: u32 = c - '0' as u32;
        assert(digits.take(i - start + 1).drop_last() =~= digits.take(i - start));
        if value > (i32::MAX as u32 - d) / 10 {
            proof {
                lemma_decimal_value_prefix(digits, i - start + 1);
            }
            return None;
        }
        value = value * 10 + d;
        i += 1;
    }
    assert(digits.take(n - start) =~= digits);
    if minus && value != 0 {
        return None;
    }
    Some(value)
}

/// Reads `v` as an address written in digits, with or without a sign.
pub fn parse_number(v: &Vec<char>) -> (r: Option<u32>)
    ensures
        match number_literal(v@) {
            Some(n) => r == Some(n as u32) && n <= i32::MAX,
            None => r is None,
        },
{
    if v.len() > 0 && (v[0] == '+' || v[0] == '-') {
        parse_digits(v, 1, v[0] == '-')
    } else {
        assert(v@.skip(0) =~= v@);
        parse_digits(v, 0, false)
    }
}

/// The `width` lowest binary digits of `v`, the highest of them first.
pub open spec fn binary(v: nat, width: nat) -> Seq<char>
    decreases width,
{
    if width == 0 {
        Seq::empty()
    } else {
        binary(v / 2, (width - 1) as nat).push(
            if v % 2 == 1 {
                '1'
            } else {
                '0'
            },
        )
    }
}

/// Appends the `width` lowest binary digits of `v` to `s`.
pub fn push_binary(s: &mut String, v: u32, width: u8)
    ensures
        final(s)@ == old(s)@ + binary(v as nat, width as nat),
    decreases width,
{
    if width > 0 {
        push_binary(s, v / 2, width - 1);
        s.push(
            if v % 2 == 1 {
                '1'
            } else {
                '0'
            },
        );
    }
    assert(s@ =~= old(s)@ + binary(v as nat, width as nat));
}

/// The character that writes the digit `d`.
pub open spec fn digit_char(d: nat) -> char {
    if d == 0 {
        '0'
    } else if d == 1 {
        '1'
    } else if d == 2 {
        '2'
    } else if d == 3 {
        '3'
    } else if d == 4 {
        '4'
    } else if d == 5 {
        '5'
    } else if d == 6 {
        '6'
    } else if d == 7 {
        '7'
    } else if d == 8 {
        '8'
    } else {
        '9'
    }
}

/// `n` written in decimal digits, without leading zeros.
pub open spec fn decimal_text(n: nat) -> Seq<char>
    decreases n,
{
    if n < 10 {
        seq![digit_char(n)]
    } else {
        decimal_text(n / 10).push(digit_char(n % 10))
    }
}

/// A number written in decimal digits reads back as itself.
pub proof fn lemma_decimal_text_value(n: nat)
    ensures
        is_decimal(decimal_text(n)),
        decimal_value(decimal_text(n)) == n,
    decreases n,
{
    if n < 10 {
        assert(decimal_text(n).drop_last() =~= Seq::<char>::empty());
        assert(decimal_value(decimal_text(n)) == decimal_value(Seq::<char>::empty()) * 10 + n);
    } else {
        lemma_decimal_text_value(n / 10);
        assert(decimal_text(n).drop_last() =~= decimal_text(n / 10));
    }
}

/// An address written in decimal digits is a number, and no name.
pub proof fn lemma_decimal_text_is_number(n: nat)
    requires
        n <= i32::MAX,
    ensures
        number_literal(decimal_text(n)) == Some(n),
{
    lemma_decimal_text_value(n);
    let t = decimal_text(n);
    assert(is_digit(t[0]));
}

/// The character that writes the digit `d`.
fn digit(d: u32) -> (c: char)
    requires
        d < 10,
    ensures
        c == digit_char(d as nat),
{
    if d == 0 {
        '0'
    } else if d == 1 {
        '1'
    } else if d == 2 {
        '2'
    } else if d == 3 {
        '3'
    } else if d == 4 {
        '4'
    } else if d == 5 {
        '5'
    } else if d == 6 {
        '6'
    } else if d == 7 {
        '7'
    } else if d == 8 {
        '8'
    } else {
        '9'
    }
}

/// Appends `n`, written in decimal digits, to `s`.
pub fn push_decimal(s: &mut String, n: u32)
    ensures
        final(s)@ == old(s)@ + decimal_text(n as nat),
    decreases n,
{
    if n >= 10 {
        push_decimal(s, n / 10);
    }
    s.push(digit(n % 10));
    assert(s@ =~= old(s)@ + decimal_text(n as nat));
}

} // verus!
