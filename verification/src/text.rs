//! Text building blocks with exact specifications: decimal rendering of
//! integers, string comparison and concatenation.

use vstd::prelude::*;

verus! {

/// The character of a decimal digit `d` (0 to 9).
pub open spec fn digit_char(d: int) -> char {
    (d + 48) as char
}

/// Decimal digits of a natural number, most significant first, with no
/// leading zeros (zero itself is `"0"`).
pub open spec fn nat_digits(n: nat) -> Seq<char>
    decreases n,
{
    if n < 10 {
        seq![digit_char(n as int)]
    } else {
        nat_digits(n / 10).push(digit_char((n % 10) as int))
    }
}

/// Decimal text of an integer, with a leading `-` for negative numbers,
/// as Rust's `Display` prints integers.
pub open spec fn int_text(i: int) -> Seq<char> {
    if i < 0 {
        seq!['-'] + nat_digits((-i) as nat)
    } else {
        nat_digits(i as nat)
    }
}

fn digit_str(d: u64) -> (r: &'static str)
    requires
        d < 10,
    ensures
        r@ == seq![digit_char(d as int)],
{
    proof {
        reveal_strlit("0");
        reveal_strlit("1");
        reveal_strlit("2");
        reveal_strlit("3");
        reveal_strlit("4");
        reveal_strlit("5");
        reveal_strlit("6");
        reveal_strlit("7");
        reveal_strlit("8");
        reveal_strlit("9");
    }
    if d == 0 {
        "0"
    } else if d == 1 {
        "1"
    } else if d == 2 {
        "2"
    } else if d == 3 {
        "3"
    } else if d == 4 {
        "4"
    } else if d == 5 {
        "5"
    } else if d == 6 {
        "6"
    } else if d == 7 {
        "7"
    } else if d == 8 {
        "8"
    } else {
        "9"
    }
}

fn push_digits(s: &mut String, n: u64)
    ensures
        final(s)@ == old(s)@ + nat_digits(n as nat),
    decreases n,
{
    if n >= 10 {
        push_digits(s, n / 10);
    }
    s.append(digit_str(n % 10));
    proof {
        if n >= 10 {
            assert(old(s)@ + nat_digits((n / 10) as nat) + seq![digit_char((n % 10) as int)]
                =~= old(s)@ + nat_digits(n as nat));
        } else {
            assert(old(s)@ + seq![digit_char((n % 10) as int)] =~= old(s)@ + nat_digits(n as nat));
        }
    }
}

/// Appends the decimal digit `c` to `s`.
pub fn push_digit(s: &mut String, c: char)
    requires
        48 <= (c as int) <= 57,
    ensures
        final(s)@ == old(s)@.push(c),
{
    let d = (c as u32 - 48) as u64;
    s.append(digit_str(d));
    assert(digit_char(d as int) == c);
    assert(old(s)@ + seq![c] =~= old(s)@.push(c));
}

/// Appends the decimal text of `i` to `s`.
pub fn push_int(s: &mut String, i: i64)
    ensures
        final(s)@ == old(s)@ + int_text(i as int),
{
    if i < 0 {
        proof {
            reveal_strlit("-");
        }
        s.append("-");
        let magnitude: u64 = (0i128 - i as i128) as u64;
        push_digits(s, magnitude);
        assert(old(s)@ + seq!['-'] + nat_digits(magnitude as nat) =~= old(s)@ + int_text(i as int));
    } else {
        push_digits(s, i as u64);
    }
}

/// The decimal text of `i`, as `i.to_string()` gives it.
pub fn int_to_text(i: i64) -> (r: String)
    ensures
        r@ == int_text(i as int),
{
    let mut s = String::new();
    push_int(&mut s, i);
    assert(s@ =~= int_text(i as int));
    s
}

/// Whether two strings hold the same characters.
pub fn str_eq(a: &str, b: &str) -> (r: bool)
    ensures
        r == (a@ == b@),
{
    let x = String::from_str(a);
    let y = String::from_str(b);
    x == y
}

/// A copy of a string.
pub fn text_of(s: &str) -> (r: String)
    ensures
        r@ == s@,
{
    String::from_str(s)
}

/// `n` spaces.
pub open spec fn spaces(n: nat) -> Seq<char> {
    Seq::new(n, |i: int| ' ')
}

/// `s` padded on the right with spaces to `width` characters, as the
/// `{:<width}` format does; a longer `s` stays as it is.
pub open spec fn pad_right_text(s: Seq<char>, width: nat) -> Seq<char> {
    if s.len() < width {
        s + spaces((width - s.len()) as nat)
    } else {
        s
    }
}

/// Padding keeps the text at the front, fills with spaces only up to the
/// width, and never shortens the text.
pub proof fn lemma_pad_right(s: Seq<char>, width: nat)
    ensures
        pad_right_text(s, width).len() == if s.len() < width { width } else { s.len() },
        pad_right_text(s, width).take(s.len() as int) == s,
        forall|i: int| s.len() <= i < pad_right_text(s, width).len() ==> #[trigger] pad_right_text(s, width)[i] == ' ',
{
    assert(pad_right_text(s, width).take(s.len() as int) =~= s);
}

/// Appends `s` padded on the right with spaces to `width` characters.
pub fn push_padded(out: &mut String, s: &str, width: usize)
    ensures
        final(out)@ == old(out)@ + pad_right_text(s@, width as nat),
{
    out.append(s);
    let len = s.unicode_len();
    let mut k: usize = len;
    proof {
        reveal_strlit(" ");
    }
    while k < width
        invariant
            len == s@.len(),
            len <= k,
            k <= width || k == len,
            out@ == old(out)@ + s@ + spaces((k - len) as nat),
        decreases width - k,
    {
        proof {
            reveal_strlit(" ");
        }
        out.append(" ");
        assert(old(out)@ + s@ + spaces((k - len) as nat) + seq![' '] =~= old(out)@ + s@ + (spaces((k - len) as nat) + seq![' ']));
        assert(spaces((k - len) as nat) + seq![' '] =~= spaces((k + 1 - len) as nat));
        k = k + 1;
    }
    assert(pad_right_text(s@, width as nat) =~= s@ + spaces((k - len) as nat));
}

/// Unicode `White_Space` characters, the whitespace of `str::trim`.
pub open spec fn is_white_space(c: char) -> bool {
    let u = c as int;
    (9 <= u <= 13) || u == 32 || u == 0x85 || u == 0xA0 || u == 0x1680 || (0x2000 <= u <= 0x200A)
        || u == 0x2028 || u == 0x2029 || u == 0x202F || u == 0x205F || u == 0x3000
}

fn white_space(c: char) -> (r: bool)
    ensures
        r == is_white_space(c),
{
    let u = c as u32;
    (9 <= u && u <= 13) || u == 32 || u == 0x85 || u == 0xA0 || u == 0x1680 || (0x2000 <= u && u <= 0x200A)
        || u == 0x2028 || u == 0x2029 || u == 0x202F || u == 0x205F || u == 0x3000
}

/// Number of whitespace characters that begin `s`.
pub open spec fn leading_white(s: Seq<char>) -> nat
    decreases s.len(),
{
    if s.len() > 0 && is_white_space(s[0]) {
        1 + leading_white(s.drop_first())
    } else {
        0
    }
}

/// Number of whitespace characters that end `s`.
pub open spec fn trailing_white(s: Seq<char>) -> nat
    decreases s.len(),
{
    if s.len() > 0 && is_white_space(s.last()) {
        1 + trailing_white(s.drop_last())
    } else {
        0
    }
}

/// `s` without its leading and trailing whitespace, as `str::trim` gives it.
pub open spec fn trim_text(s: Seq<char>) -> Seq<char> {
    if leading_white(s) == s.len() {
        Seq::empty()
    } else {
        s.subrange(leading_white(s) as int, s.len() - trailing_white(s))
    }
}

proof fn lemma_leading_white(s: Seq<char>, i: int)
    requires
        0 <= i <= s.len(),
        forall|j: int| 0 <= j < i ==> is_white_space(#[trigger] s[j]),
        i == s.len() || !is_white_space(s[i]),
    ensures
        leading_white(s) == i,
    decreases i,
{
    if i > 0 {
        assert forall|j: int| 0 <= j < i - 1 implies is_white_space(#[trigger] s.drop_first()[j]) by {
            assert(s.drop_first()[j] == s[j + 1]);
        }
        if i < s.len() {
            assert(s.drop_first()[i - 1] == s[i]);
        }
        lemma_leading_white(s.drop_first(), i - 1);
    }
}

proof fn lemma_trailing_white(s: Seq<char>, i: int)
    requires
        0 <= i <= s.len(),
        forall|j: int| s.len() - i <= j < s.len() ==> is_white_space(#[trigger] s[j]),
        i == s.len() || !is_white_space(s[s.len() - 1 - i]),
    ensures
        trailing_white(s) == i,
    decreases i,
{
    if i > 0 {
        let t = s.drop_last();
        assert forall|j: int| t.len() - (i - 1) <= j < t.len() implies is_white_space(#[trigger] t[j]) by {
            assert(t[j] == s[j]);
        }
        if i < s.len() {
            assert(t[t.len() - 1 - (i - 1)] == s[s.len() - 1 - i]);
        }
        assert(is_white_space(s[s.len() - 1]));
        lemma_trailing_white(t, i - 1);
    }
}

proof fn lemma_leading_white_meaning(s: Seq<char>)
    ensures
        leading_white(s) <= s.len(),
        forall|j: int| 0 <= j < leading_white(s) ==> is_white_space(#[trigger] s[j]),
        leading_white(s) < s.len() ==> !is_white_space(s[leading_white(s) as int]),
    decreases s.len(),
{
    if s.len() > 0 && is_white_space(s[0]) {
        let t = s.drop_first();
        lemma_leading_white_meaning(t);
        assert forall|j: int| 0 <= j < leading_white(s) implies is_white_space(#[trigger] s[j]) by {
            if j > 0 {
                assert(s[j] == t[j - 1]);
            }
        }
        if leading_white(s) < s.len() {
            assert(s[leading_white(s) as int] == t[leading_white(t) as int]);
        }
    }
}

proof fn lemma_trailing_white_meaning(s: Seq<char>)
    ensures
        trailing_white(s) <= s.len(),
        forall|j: int| s.len() - trailing_white(s) <= j < s.len() ==> is_white_space(#[trigger] s[j]),
        trailing_white(s) < s.len() ==> !is_white_space(s[s.len() - 1 - trailing_white(s)]),
    decreases s.len(),
{
    if s.len() > 0 && is_white_space(s.last()) {
        let t = s.drop_last();
        lemma_trailing_white_meaning(t);
        assert forall|j: int| s.len() - trailing_white(s) <= j < s.len() implies is_white_space(#[trigger] s[j]) by {
            if j < s.len() - 1 {
                assert(s[j] == t[j]);
            }
        }
        if trailing_white(s) < s.len() {
            assert(s[s.len() - 1 - trailing_white(s)] == t[t.len() - 1 - trailing_white(t)]);
        }
    }
}

/// Trimming removes whitespace, and only whitespace, from both ends: the
/// result is a contiguous part of `s` that neither starts nor ends with
/// whitespace, and everything cut off before or after it is whitespace.
pub proof fn lemma_trim_meaning(s: Seq<char>)
    ensures
        exists|a: int, b: int|
            0 <= a <= b <= s.len() && trim_text(s) == s.subrange(a, b) && (forall|j: int|
                0 <= j < a ==> is_white_space(#[trigger] s[j])) && (forall|j: int|
                b <= j < s.len() ==> is_white_space(#[trigger] s[j])) && (a < b ==> !is_white_space(s[a])
                && !is_white_space(s[b - 1])),
{
    lemma_leading_white_meaning(s);
    lemma_trailing_white_meaning(s);
    let a = leading_white(s) as int;
    if a == s.len() {
        assert(trim_text(s) =~= s.subrange(a, a));
        assert forall|j: int| a <= j < s.len() implies is_white_space(#[trigger] s[j]) by {}
    } else {
        let b = s.len() - trailing_white(s);
        if b <= a {
            assert(is_white_space(s[a]));
        }
        assert(trim_text(s) == s.subrange(a, b));
    }
}

/// `s` without leading and trailing whitespace.
pub fn trim(s: &str) -> (r: String)
    ensures
        r@ == trim_text(s@),
{
    let n = s.unicode_len();
    let mut a: usize = 0;
    while a < n && white_space(s.get_char(a))
        invariant
            n == s@.len(),
            a <= n,
            forall|j: int| 0 <= j < a ==> is_white_space(#[trigger] s@[j]),
        decreases n - a,
    {
        a = a + 1;
    }
    proof {
        lemma_leading_white(s@, a as int);
    }
    if a == n {
        return String::new();
    }
    let mut t: usize = 0;
    while t < n - a && white_space(s.get_char(n - 1 - t))
        invariant
            n == s@.len(),
            a < n,
            !is_white_space(s@[a as int]),
            t <= n - a,
            forall|j: int| n - t <= j < n ==> is_white_space(#[trigger] s@[j]),
        decreases n - a - t,
    {
        t = t + 1;
    }
    proof {
        if t == n - a {
            assert(is_white_space(s@[a as int]));
        }
        lemma_trailing_white(s@, t as int);
    }
    String::from_str(s.substring_char(a, n - t))
}

/// A decimal digit character.
pub open spec fn is_digit(c: char) -> bool {
    48 <= (c as int) <= 57
}

/// Value of a string of decimal digits.
pub open spec fn digits_value(s: Seq<char>) -> int
    decreases s.len(),
{
    if s.len() == 0 {
        0
    } else {
        digits_value(s.drop_last()) * 10 + (s.last() as int - 48)
    }
}

/// Every character of `s` is a decimal digit.
pub open spec fn all_digits(s: Seq<char>) -> bool {
    forall|i: int| 0 <= i < s.len() ==> is_digit(#[trigger] s[i])
}

/// `s` without one leading `+` or `-`.
pub open spec fn unsigned_part(s: Seq<char>) -> Seq<char> {
    if s.len() > 0 && (s[0] == '-' || s[0] == '+') {
        s.drop_first()
    } else {
        s
    }
}

/// The `i32` that a string denotes as `str::parse::<i32>` reads it: an
/// optional `+` or `-`, then one or more decimal digits, with a value in range.
pub open spec fn parse_i32_text(s: Seq<char>) -> Option<i32> {
    let negative = s.len() > 0 && s[0] == '-';
    let digits = unsigned_part(s);
    let magnitude = digits_value(digits);
    let value = if negative {
        -magnitude
    } else {
        magnitude
    };
    if digits.len() == 0 || !all_digits(digits) {
        None
    } else if value < i32::MIN || value > i32::MAX {
        None
    } else {
        Some(value as i32)
    }
}

proof fn lemma_nat_digits(n: nat)
    ensures
        nat_digits(n).len() > 0,
        all_digits(nat_digits(n)),
        digits_value(nat_digits(n)) == n,
    decreases n,
{
    let d = nat_digits(n);
    let r = (n % 10) as int;
    assert(digit_char(r) as int == r + 48);
    if n < 10 {
        assert(n % 10 == n);
        assert(d.drop_last() =~= Seq::<char>::empty());
        assert(d.last() == digit_char(n as int));
        assert(digits_value(d) == digits_value(d.drop_last()) * 10 + (d.last() as int - 48));
    } else {
        lemma_nat_digits(n / 10);
        assert(n == (n / 10) * 10 + n % 10) by (nonlinear_arith);
        assert(d.drop_last() =~= nat_digits(n / 10));
        assert(d.last() == digit_char(r));
        assert(digits_value(d) == digits_value(d.drop_last()) * 10 + (d.last() as int - 48));
        assert forall|i: int| 0 <= i < d.len() implies is_digit(#[trigger] d[i]) by {
            if i < d.len() - 1 {
                assert(d[i] == nat_digits(n / 10)[i]);
            }
        }
    }
}

/// Decimal text is never empty.
pub proof fn lemma_int_text_nonempty(i: int)
    ensures
        int_text(i).len() > 0,
{
    if i < 0 {
        lemma_nat_digits((-i) as nat);
    } else {
        lemma_nat_digits(i as nat);
    }
}

/// Decimal text holds only digits and a leading minus sign, so no other
/// character, such as a separator, occurs in it.
pub proof fn lemma_int_text_has_no_slash(i: int)
    ensures
        forall|j: int| 0 <= j < int_text(i).len() ==> (#[trigger] int_text(i)[j]) != '/' && int_text(i)[j] != '(' && int_text(i)[j] != ')',
{
    let m = if i < 0 { (-i) as nat } else { i as nat };
    lemma_nat_digits(m);
    assert forall|j: int| 0 <= j < int_text(i).len() implies (#[trigger] int_text(i)[j]) != '/' && int_text(i)[j] != '(' && int_text(i)[j] != ')' by {
        if i < 0 {
            if j > 0 {
                assert(int_text(i)[j] == nat_digits(m)[j - 1]);
                assert(is_digit(nat_digits(m)[j - 1]));
            }
        } else {
            assert(is_digit(nat_digits(m)[j]));
        }
    }
}

/// Reading back the decimal text of an `i32` gives the number.
pub proof fn lemma_parse_int_text(n: i32)
    ensures
        parse_i32_text(int_text(n as int)) == Some(n),
{
    if n < 0 {
        let m = (-n) as nat;
        lemma_nat_digits(m);
        let s = int_text(n as int);
        assert(s[0] == '-');
        assert(s.drop_first() =~= nat_digits(m));
        assert(unsigned_part(s) == nat_digits(m));
    } else {
        lemma_nat_digits(n as nat);
        let s = int_text(n as int);
        assert(is_digit(s[0]));
        assert(unsigned_part(s) == s);
    }
}

/// Reads an `i32` as `str::parse::<i32>` does.
pub fn parse_i32(s: &str) -> (r: Option<i32>)
    ensures
        r == parse_i32_text(s@),
{
    let n = s.unicode_len();
    let mut start: usize = 0;
    let mut negative = false;
    if n > 0 {
        let c = s.get_char(0);
        if c == '-' {
            negative = true;
            start = 1;
        } else if c == '+' {
            start = 1;
        }
    }
    let ghost digits = s@.subrange(start as int, n as int);
    assert(digits =~= unsigned_part(s@));
    if start == n {
        return None;
    }
    let cap: i64 = 2147483649;
    let mut acc: i64 = 0;
    let mut i: usize = start;
    while i < n
        invariant
            n == s@.len(),
            start <= i <= n,
            digits == s@.subrange(start as int, n as int),
            digits == unsigned_part(s@),
            negative == (s@.len() > 0 && s@[0] == '-'),
            0 <= acc <= cap,
            cap == 2147483649,
            forall|j: int| 0 <= j < i - start ==> is_digit(#[trigger] digits[j]),
            acc == (if digits_value(digits.take(i - start)) < cap { digits_value(digits.take(i - start)) } else { cap as int }),
            digits_value(digits.take(i - start)) >= 0,
        decreases n - i,
    {
        let c = s.get_char(i);
        assert(digits[i - start] == c);
        let u = c as u32;
        if !(48 <= u && u <= 57) {
            proof {
                assert(!is_digit(digits[i - start]));
                assert(!all_digits(digits));
            }
            return None;
        }
        let d = (u - 48) as i64;
        proof {
            assert(digits.take(i + 1 - start).drop_last() =~= digits.take(i - start));
            assert(digits.take(i + 1 - start).last() == c);
        }
        if acc < cap {
            let next = acc * 10 + d;
            acc = if next < cap { next } else { cap };
        }
        i = i + 1;
    }
    assert(digits.take(n - start) =~= digits);
    let value: i64 = if negative { -acc } else { acc };
    if value < -2147483648 || value > 2147483647 {
        None
    } else {
        Some(value as i32)
    }
}

} // verus!
