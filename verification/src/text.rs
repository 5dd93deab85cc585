use vstd::prelude::*;
use vstd::string::StrSliceExecFns;
use vstd::string::StringExecFns;

verus! {

/// Compares two string slices by content.
pub fn str_eq(a: &str, b: &str) -> (r: bool)
    ensures
        r == (a@ == b@),
{
    let la = a.unicode_len();
    let lb = b.unicode_len();
    if la != lb {
        return false;
    }
    for i in 0..la
        invariant
            la == a@.len(),
            la == b@.len(),
            forall|j: int| 0 <= j < i ==> a@[j] == b@[j],
    {
        if a.get_char(i) != b.get_char(i) {
            return false;
        }
    }
    proof {
        assert(a@ =~= b@);
    }
    true
}

// ---------------------------------------------------------------------------
// Digits and numbers
// ---------------------------------------------------------------------------
/// An ASCII whitespace character, as the assembly language admits between
/// tokens and around lines.
pub open spec fn is_space(c: char) -> bool {
    c == ' ' || c == '\t' || c == '\n' || c == '\r' || c == '\u{b}' || c == '\u{c}'
}

/// The numeric value of a character read as a digit, letters standing for
/// ten and up; characters that are no digit get a value past every radix.
pub open spec fn digit_val(c: char) -> nat {
    if '0' <= c && c <= '9' {
        (c as nat - '0' as nat) as nat
    } else if 'a' <= c && c <= 'f' {
        (c as nat - 'a' as nat + 10) as nat
    } else if 'A' <= c && c <= 'F' {
        (c as nat - 'A' as nat + 10) as nat
    } else {
        16
    }
}

/// Whether `c` is a digit of the given radix.
pub open spec fn is_digit_radix(c: char, radix: nat) -> bool {
    digit_val(c) < radix
}

pub open spec fn is_digit(c: char) -> bool {
    is_digit_radix(c, 10)
}

/// The number a sequence of digits denotes in the given radix.
pub open spec fn chars_to_nat(s: Seq<char>, radix: nat) -> nat
    decreases s.len(),
{
    if s.len() == 0 {
        0
    } else {
        chars_to_nat(s.drop_last(), radix) * radix + digit_val(s.last())
    }
}

/// Whether `s` consists of one or more digits of the radix.
pub open spec fn all_digits(s: Seq<char>, radix: nat) -> bool {
    s.len() > 0 && forall|i: int| 0 <= i < s.len() ==> is_digit_radix(#[trigger] s[i], radix)
}

/// What parsing an unsigned machine word from decimal text yields: a leading
/// plus sign is tolerated, then digits, and the value must fit the word.
pub open spec fn spec_parse_usize(s: Seq<char>) -> Option<nat> {
    let body = if s.len() > 0 && s[0] == '+' {
        s.drop_first()
    } else {
        s
    };
    if all_digits(body, 10) && chars_to_nat(body, 10) <= usize::MAX as nat {
        Some(chars_to_nat(body, 10))
    } else {
        None
    }
}

/// What parsing a signed 32-bit value from text of the given radix yields:
/// an optional sign, then digits, and the magnitude must fit the type.
pub open spec fn spec_parse_i32_radix(s: Seq<char>, radix: nat) -> Option<i32> {
    let negative = s.len() > 0 && s[0] == '-';
    let body = if s.len() > 0 && (s[0] == '-' || s[0] == '+') {
        s.drop_first()
    } else {
        s
    };
    if !all_digits(body, radix) {
        None
    } else {
        let m = chars_to_nat(body, radix);
        if negative {
            if m <= 0x8000_0000 {
                Some((-(m as int)) as i32)
            } else {
                None
            }
        } else {
            if m <= 0x7fff_ffff {
                Some(m as i32)
            } else {
                None
            }
        }
    }
}

/// Appending one digit multiplies the value by the radix and adds it.
proof fn lemma_chars_to_nat_take(s: Seq<char>, radix: nat, i: int)
    requires
        0 <= i < s.len(),
    ensures
        chars_to_nat(s.take(i + 1), radix) == chars_to_nat(s.take(i), radix) * radix + digit_val(
            s[i],
        ),
{
    assert(s.take(i + 1).drop_last() =~= s.take(i));
    assert(s.take(i + 1).last() == s[i]);
}

/// A longer digit string never denotes a smaller number.
proof fn lemma_chars_to_nat_mono(s: Seq<char>, radix: nat, i: int, j: int)
    requires
        0 <= i <= j <= s.len(),
        radix >= 2,
    ensures
        chars_to_nat(s.take(i), radix) <= chars_to_nat(s.take(j), radix),
    decreases j - i,
{
    if i < j {
        lemma_chars_to_nat_mono(s, radix, i, j - 1);
        lemma_chars_to_nat_take(s, radix, j - 1);
        let a = chars_to_nat(s.take(j - 1), radix);
        assert(a * radix >= a) by (nonlinear_arith)
            requires
                radix >= 2,
                a >= 0,
        ;
    }
}

/// Reads the digits of `s` (its whole range) in the given radix, reporting
/// the value and failing on any non-digit, an empty string, or a value above
/// `limit`.
fn parse_magnitude(s: &str, from: usize, radix: u32, limit: u128) -> (r: Option<u128>)
    requires
        2 <= radix <= 16,
        from as int <= s@.len(),
        limit <= 0xffff_ffff_ffff_ffff,
    ensures
        match r {
            Some(v) => all_digits(s@.skip(from as int), radix as nat) && v as nat == chars_to_nat(
                s@.skip(from as int),
                radix as nat,
            ) && v <= limit,
            None => !all_digits(s@.skip(from as int), radix as nat) || chars_to_nat(
                s@.skip(from as int),
                radix as nat,
            ) > limit,
        },
{
    let ghost body = s@.skip(from as int);
    let n = s.unicode_len();
    if from >= n {
        return None;
    }
    let mut acc: u128 = 0;
    let mut i = from;
    while i < n
        invariant
            from <= i <= n,
            n == s@.len(),
            from as int <= s@.len(),
            2 <= radix <= 16,
            limit <= 0xffff_ffff_ffff_ffff,
            body == s@.skip(from as int),
            all_digits(body.take(i - from), radix as nat) || i == from,
            acc as nat == chars_to_nat(body.take(i - from), radix as nat),
            acc <= limit,
        decreases n - i,
    {
        let c = s.get_char(i);
        let d: u32 = if '0' <= c && c <= '9' {
            (c as u32) - ('0' as u32)
        } else if 'a' <= c && c <= 'f' {
            (c as u32) - ('a' as u32) + 10
        } else if 'A' <= c && c <= 'F' {
            (c as u32) - ('A' as u32) + 10
        } else {
            16
        };
        proof {
            assert(d as nat == digit_val(c));
            assert(body[i - from] == s@[i as int]);
        }
        if d >= radix {
            return None;
        }
        proof {
            assert((acc as int) * (radix as int) <= 0xffff_ffff_ffff_ffff * 16)
                by (nonlinear_arith)
                requires
                    acc <= 0xffff_ffff_ffff_ffff,
                    radix <= 16,
                    acc >= 0,
                    radix >= 0,
            ;
        }
        let next = acc * (radix as u128) + (d as u128);
        proof {
            lemma_chars_to_nat_take(body, radix as nat, i - from);
        }
        if next > limit {
            proof {
                if all_digits(body, radix as nat) {
                    lemma_chars_to_nat_mono(body, radix as nat, i - from + 1, body.len() as int);
                    assert(body.take(body.len() as int) =~= body);
                }
            }
            return None;
        }
        acc = next;
        i = i + 1;
    }
    proof {
        assert(body.take(body.len() as int) =~= body);
    }
    Some(acc)
}

/// Parses an unsigned machine word from decimal text, as its standard
/// decimal form admits it: an optional plus sign, then digits.
pub fn parse_usize(s: &str) -> (r: Option<usize>)
    ensures
        match r {
            Some(v) => spec_parse_usize(s@) == Some(v as nat),
            None => spec_parse_usize(s@) is None,
        },
{
    let n = s.unicode_len();
    let from: usize = if n > 0 && s.get_char(0) == '+' {
        1
    } else {
        0
    };
    proof {
        if from == 1 {
            assert(s@.skip(1) =~= s@.drop_first());
        } else {
            assert(s@.skip(0) =~= s@);
        }
    }
    match parse_magnitude(s, from, 10, usize::MAX as u128) {
        Some(v) => Some(v as usize),
        None => None,
    }
}

/// Parses a signed 32-bit value from text in the given radix, as the
/// standard radix parser admits it: an optional sign, then digits.
pub fn parse_i32_radix(s: &str, radix: u32) -> (r: Option<i32>)
    requires
        2 <= radix <= 16,
    ensures
        match r {
            Some(v) => spec_parse_i32_radix(s@, radix as nat) == Some(v),
            None => spec_parse_i32_radix(s@, radix as nat) is None,
        },
{
    let n = s.unicode_len();
    let negative = n > 0 && s.get_char(0) == '-';
    let from: usize = if n > 0 && (s.get_char(0) == '-' || s.get_char(0) == '+') {
        1
    } else {
        0
    };
    proof {
        if from == 1 {
            assert(s@.skip(1) =~= s@.drop_first());
        } else {
            assert(s@.skip(0) =~= s@);
        }
    }
    let limit: u128 = if negative {
        0x8000_0000
    } else {
        0x7fff_ffff
    };
    match parse_magnitude(s, from, radix, limit) {
        Some(v) => {
            if negative {
                if v == 0x8000_0000 {
                    Some(i32::MIN)
                } else {
                    Some(-(v as i32))
                }
            } else {
                Some(v as i32)
            }
        },
        None => None,
    }
}

// ---------------------------------------------------------------------------
// Rendering numbers
// ---------------------------------------------------------------------------
/// The decimal digit character for a value below ten.
pub open spec fn digit_char(d: nat) -> char {
    if d == 0 {
        '0'
    } else if d == 1 {
        '1'
    } else if d == 2 {
        '2'
    } else if d == 3 {
        '3'
    } else if d == 4 {
        '4'
    } else if d == 5 {
        '5'
    } else if d == 6 {
        '6'
    } else if d == 7 {
        '7'
    } else if d == 8 {
        '8'
    } else {
        '9'
    }
}

/// The decimal rendering of a number.
pub open spec fn nat_to_chars(n: nat) -> Seq<char>
    decreases n,
{
    if n < 10 {
        seq![digit_char(n)]
    } else {
        nat_to_chars(n / 10).push(digit_char(n % 10))
    }
}

/// The one-character string for a digit.
fn digit_str(d: usize) -> (r: &'static str)
    requires
        d < 10,
    ensures
        r@ =~= seq![digit_char(d as nat)],
{
    proof {
        reveal_strlit("0");
        reveal_strlit("1");
        reveal_strlit("2");
        reveal_strlit("3");
        reveal_strlit("4");
        reveal_strlit("5");
        reveal_strlit("6");
        reveal_strlit("7");
        reveal_strlit("8");
        reveal_strlit("9");
    }
    if d == 0 {
        "0"
    } else if d == 1 {
        "1"
    } else if d == 2 {
        "2"
    } else if d == 3 {
        "3"
    } else if d == 4 {
        "4"
    } else if d == 5 {
        "5"
    } else if d == 6 {
        "6"
    } else if d == 7 {
        "7"
    } else if d == 8 {
        "8"
    } else {
        "9"
    }
}

/// Appends the decimal rendering of a number to a string.
pub fn append_usize(s: &mut String, v: usize)
    ensures
        final(s)@ == old(s)@ + nat_to_chars(v as nat),
    decreases v,
{
    if v >= 10 {
        append_usize(s, v / 10);
        s.append(digit_str(v % 10));
        proof {
            assert(old(s)@ + nat_to_chars((v / 10) as nat) + seq![digit_char((v % 10) as nat)]
                =~= old(s)@ + nat_to_chars(v as nat));
        }
    } else {
        s.append(digit_str(v));
        proof {
            assert(old(s)@ + seq![digit_char(v as nat)] =~= old(s)@ + nat_to_chars(v as nat));
        }
    }
}

/// The position of the first occurrence of `d` in `s`, or the length of `s`
/// if there is none.
pub open spec fn find_char(s: Seq<char>, d: char) -> int
    decreases s.len(),
{
    if s.len() == 0 {
        0
    } else if s[0] == d {
        0
    } else {
        1 + find_char(s.drop_first(), d)
    }
}

/// `find_char` points at the first occurrence: everything before it differs
/// from `d`, and it lies on `d` unless there is none.
pub proof fn lemma_find_char(s: Seq<char>, d: char)
    ensures
        0 <= find_char(s, d) <= s.len(),
        find_char(s, d) < s.len() ==> s[find_char(s, d)] == d,
        forall|j: int| 0 <= j < find_char(s, d) ==> s[j] != d,
    decreases s.len(),
{
    if s.len() > 0 && s[0] != d {
        lemma_find_char(s.drop_first(), d);
        assert forall|j: int| 0 <= j < find_char(s, d) implies s[j] != d by {
            if j > 0 {
                assert(s.drop_first()[j - 1] == s[j]);
            }
        }
        if find_char(s, d) < s.len() {
            assert(s.drop_first()[find_char(s, d) - 1] == s[find_char(s, d)]);
        }
    }
}

/// A scan that finds the first occurrence at or after `from` matches
/// `find_char` on the tail.
pub proof fn lemma_find_char_unique(s: Seq<char>, d: char, k: int)
    requires
        0 <= k <= s.len(),
        forall|j: int| 0 <= j < k ==> s[j] != d,
        k < s.len() ==> s[k] == d,
    ensures
        find_char(s, d) == k,
    decreases s.len(),
{
    if s.len() > 0 && s[0] != d {
        assert(k > 0);
        assert forall|j: int| 0 <= j < k - 1 implies s.drop_first()[j] != d by {
            assert(s.drop_first()[j] == s[j + 1]);
        }
        if k - 1 < s.drop_first().len() {
            assert(s.drop_first()[k - 1] == s[k]);
        }
        lemma_find_char_unique(s.drop_first(), d, k - 1);
    }
}

/// What an exec scan from `from` to `r` shows, restated over `find_char`.
pub proof fn lemma_find_char_skip(s: Seq<char>, d: char, from: int, r: int)
    requires
        0 <= from <= r <= s.len(),
        forall|j: int| from <= j < r ==> s[j] != d,
        r < s.len() ==> s[r] == d,
    ensures
        find_char(s.skip(from), d) == r - from,
{
    assert forall|j: int| 0 <= j < r - from implies s.skip(from)[j] != d by {
        assert(s.skip(from)[j] == s[j + from]);
    }
    if r < s.len() {
        assert(s.skip(from)[r - from] == s[r]);
    }
    lemma_find_char_unique(s.skip(from), d, r - from);
}

/// Finds the first occurrence of `d` in `s` at or after `from`, or the
/// length of `s` if there is none.
pub fn find_from(s: &str, from: usize, d: char) -> (r: usize)
    requires
        from as int <= s@.len(),
    ensures
        from <= r <= s@.len(),
        forall|j: int| from <= j < r ==> s@[j] != d,
        r < s@.len() ==> s@[r as int] == d,
{
    let n = s.unicode_len();
    let mut i = from;
    while i < n
        invariant
            from <= i <= n,
            n == s@.len(),
            forall|j: int| from <= j < i ==> s@[j] != d,
        decreases n - i,
    {
        if s.get_char(i) == d {
            return i;
        }
        i = i + 1;
    }
    n
}


// ---------------------------------------------------------------------------
// Trimming, line splitting, word splitting
// ---------------------------------------------------------------------------
/// `s` with its leading whitespace removed.
pub open spec fn spec_trim_front(s: Seq<char>) -> Seq<char>
    decreases s.len(),
{
    if s.len() > 0 && is_space(s[0]) {
        spec_trim_front(s.drop_first())
    } else {
        s
    }
}

/// `s` with its trailing whitespace removed.
pub open spec fn spec_trim_back(s: Seq<char>) -> Seq<char>
    decreases s.len(),
{
    if s.len() > 0 && is_space(s.last()) {
        spec_trim_back(s.drop_last())
    } else {
        s
    }
}

/// `s` with whitespace removed from both ends.
pub open spec fn spec_trim(s: Seq<char>) -> Seq<char> {
    spec_trim_back(spec_trim_front(s))
}

proof fn lemma_trim_front_range(s: Seq<char>, a: int)
    requires
        0 <= a <= s.len(),
        forall|j: int| 0 <= j < a ==> is_space(#[trigger] s[j]),
        a < s.len() ==> !is_space(s[a]),
    ensures
        spec_trim_front(s) == s.skip(a),
    decreases s.len(),
{
    if s.len() > 0 && is_space(s[0]) {
        assert(a > 0);
        assert forall|j: int| 0 <= j < a - 1 implies is_space(#[trigger] s.drop_first()[j]) by {
            assert(s.drop_first()[j] == s[j + 1]);
        }
        if a - 1 < s.drop_first().len() {
            assert(s.drop_first()[a - 1] == s[a]);
        }
        lemma_trim_front_range(s.drop_first(), a - 1);
        assert(s.drop_first().skip(a - 1) =~= s.skip(a));
    } else {
        assert(a == 0);
        assert(s.skip(0) =~= s);
    }
}

proof fn lemma_trim_back_range(s: Seq<char>, b: int)
    requires
        0 <= b <= s.len(),
        forall|j: int| b <= j < s.len() ==> is_space(#[trigger] s[j]),
        b > 0 ==> !is_space(s[b - 1]),
    ensures
        spec_trim_back(s) == s.take(b),
    decreases s.len(),
{
    if s.len() > 0 && is_space(s.last()) {
        assert(b < s.len());
        lemma_trim_back_range(s.drop_last(), b);
        assert(s.drop_last().take(b) =~= s.take(b));
    } else {
        assert(b == s.len());
        assert(s.take(b) =~= s);
    }
}

/// Removes whitespace from both ends of a string slice.
pub fn trim(s: &str) -> (r: &str)
    ensures
        r@ == spec_trim(s@),
{
    let n = s.unicode_len();
    let mut a: usize = 0;
    while a < n
        invariant
            0 <= a <= n,
            n == s@.len(),
            forall|j: int| 0 <= j < a ==> is_space(#[trigger] s@[j]),
        ensures
            0 <= a <= n,
            forall|j: int| 0 <= j < a ==> is_space(#[trigger] s@[j]),
            a < n ==> !is_space(s@[a as int]),
        decreases n - a,
    {
        let c = s.get_char(a);
        if !(c == ' ' || c == '\t' || c == '\n' || c == '\r' || c == '\u{b}' || c == '\u{c}') {
            break ;
        }
        a = a + 1;
    }
    let mut b: usize = n;
    while b > a
        invariant
            a <= b <= n,
            n == s@.len(),
            forall|j: int| b <= j < n ==> is_space(#[trigger] s@[j]),
        ensures
            a <= b <= n,
            forall|j: int| b <= j < n ==> is_space(#[trigger] s@[j]),
            b > a ==> !is_space(s@[b - 1]),
        decreases b,
    {
        let c = s.get_char(b - 1);
        if !(c == ' ' || c == '\t' || c == '\n' || c == '\r' || c == '\u{b}' || c == '\u{c}') {
            break ;
        }
        b = b - 1;
    }
    let r = s.substring_char(a, b);
    proof {
        if a == n {
            lemma_trim_front_range(s@, a as int);
            lemma_trim_back_range(s@.skip(a as int), 0);
            assert(r@ =~= spec_trim(s@));
        } else {
            lemma_trim_front_range(s@, a as int);
            assert forall|j: int|
                b - a <= j < s@.skip(a as int).len() implies is_space(
                #[trigger] s@.skip(a as int)[j],
            ) by {
                assert(s@.skip(a as int)[j] == s@[j + a]);
            }
            if b > a {
                assert(s@.skip(a as int)[b - a - 1] == s@[b - 1]);
            }
            lemma_trim_back_range(s@.skip(a as int), b - a);
            assert(r@ =~= s@.skip(a as int).take(b - a));
        }
    }
    r
}

/// The position of the first whitespace character of `s`, or its length.
pub open spec fn find_space(s: Seq<char>) -> int
    decreases s.len(),
{
    if s.len() == 0 {
        0
    } else if is_space(s[0]) {
        0
    } else {
        1 + find_space(s.drop_first())
    }
}

pub proof fn lemma_find_space_unique(s: Seq<char>, k: int)
    requires
        0 <= k <= s.len(),
        forall|j: int| 0 <= j < k ==> !is_space(#[trigger] s[j]),
        k < s.len() ==> is_space(s[k]),
    ensures
        find_space(s) == k,
    decreases s.len(),
{
    if s.len() > 0 && !is_space(s[0]) {
        assert(k > 0);
        assert forall|j: int| 0 <= j < k - 1 implies !is_space(#[trigger] s.drop_first()[j]) by {
            assert(s.drop_first()[j] == s[j + 1]);
        }
        if k - 1 < s.drop_first().len() {
            assert(s.drop_first()[k - 1] == s[k]);
        }
        lemma_find_space_unique(s.drop_first(), k - 1);
    }
}

proof fn lemma_find_space_bounds(s: Seq<char>)
    ensures
        0 <= find_space(s) <= s.len(),
        s.len() > 0 && !is_space(s[0]) ==> find_space(s) >= 1,
    decreases s.len(),
{
    if s.len() > 0 && !is_space(s[0]) {
        lemma_find_space_bounds(s.drop_first());
    }
}

/// The whitespace-separated words of `s`, in order.
pub open spec fn spec_words(s: Seq<char>) -> Seq<Seq<char>>
    decreases s.len(),
    via spec_words_decreases
{
    if s.len() == 0 {
        Seq::empty()
    } else if is_space(s[0]) {
        spec_words(s.drop_first())
    } else {
        seq![s.take(find_space(s))] + spec_words(s.skip(find_space(s)))
    }
}

#[via_fn]
proof fn spec_words_decreases(s: Seq<char>) {
    if s.len() > 0 && !is_space(s[0]) {
        lemma_find_space_bounds(s);
    }
}

proof fn lemma_words_skip_space(s: Seq<char>, i: int)
    requires
        0 <= i < s.len(),
        is_space(s[i]),
    ensures
        spec_words(s.skip(i)) == spec_words(s.skip(i + 1)),
{
    assert(s.skip(i).drop_first() =~= s.skip(i + 1));
}

proof fn lemma_words_at_word(s: Seq<char>, i: int, j: int)
    requires
        0 <= i < j <= s.len(),
        !is_space(s[i]),
        forall|k: int| i < k < j ==> !is_space(#[trigger] s[k]),
        j < s.len() ==> is_space(s[j]),
    ensures
        spec_words(s.skip(i)) == seq![s.subrange(i, j)] + spec_words(s.skip(j)),
{
    let t = s.skip(i);
    assert forall|k: int| 0 <= k < j - i implies !is_space(#[trigger] t[k]) by {
        assert(t[k] == s[k + i]);
    }
    if j - i < t.len() {
        assert(t[j - i] == s[j]);
    }
    lemma_find_space_unique(t, j - i);
    assert(t.take(j - i) =~= s.subrange(i, j));
    assert(t.skip(j - i) =~= s.skip(j));
}

/// Splits a string slice into its whitespace-separated words.
pub fn split_words(s: &str) -> (r: Vec<&str>)
    ensures
        r@.map_values(|w: &str| w@) == spec_words(s@),
{
    let mut out: Vec<&str> = Vec::new();
    let n = s.unicode_len();
    let mut i: usize = 0;
    proof {
        assert(s@.skip(0) =~= s@);
        assert(out@.map_values(|w: &str| w@) + spec_words(s@.skip(0)) =~= spec_words(s@));
    }
    while i < n
        invariant
            0 <= i <= n,
            n == s@.len(),
            out@.map_values(|w: &str| w@) + spec_words(s@.skip(i as int)) == spec_words(s@),
        decreases n - i,
    {
        let c = s.get_char(i);
        if c == ' ' || c == '\t' || c == '\n' || c == '\r' || c == '\u{b}' || c == '\u{c}' {
            proof {
                lemma_words_skip_space(s@, i as int);
            }
            i = i + 1;
        } else {
            let mut j = i + 1;
            while j < n
                invariant
                    i < j <= n,
                    n == s@.len(),
                    forall|k: int| i < k < j ==> !is_space(#[trigger] s@[k]),
                ensures
                    i < j <= n,
                    forall|k: int| i < k < j ==> !is_space(#[trigger] s@[k]),
                    j < n ==> is_space(s@[j as int]),
                decreases n - j,
            {
                let c2 = s.get_char(j);
                if c2 == ' ' || c2 == '\t' || c2 == '\n' || c2 == '\r' || c2 == '\u{b}' || c2
                    == '\u{c}' {
                    break ;
                }
                j = j + 1;
            }
            let ghost out_before = out@.map_values(|w: &str| w@);
            let word = s.substring_char(i, j);
            out.push(word);
            proof {
                lemma_words_at_word(s@, i as int, j as int);
                assert(word@ =~= s@.subrange(i as int, j as int));
                assert(out@.map_values(|w: &str| w@) =~= out_before.push(word@));
                assert(out_before.push(word@) + spec_words(s@.skip(j as int)) =~= out_before + (seq![
                    s@.subrange(i as int, j as int),
                ] + spec_words(s@.skip(j as int))));
            }
            i = j;
        }
    }
    proof {
        assert(s@.skip(n as int) =~= Seq::<char>::empty());
        assert(out@.map_values(|w: &str| w@) + Seq::<Seq<char>>::empty() =~= out@.map_values(
            |w: &str| w@,
        ));
    }
    out
}

/// Every word of a split is nonempty.
pub proof fn lemma_words_nonempty(s: Seq<char>)
    ensures
        forall|i: int| 0 <= i < spec_words(s).len() ==> (#[trigger] spec_words(s)[i]).len() > 0,
    decreases s.len(),
{
    if s.len() == 0 {
    } else if is_space(s[0]) {
        lemma_words_nonempty(s.drop_first());
        assert(spec_words(s) == spec_words(s.drop_first()));
        assert forall|i: int|
            0 <= i < spec_words(s).len() implies (#[trigger] spec_words(s)[i]).len() > 0 by {
            assert(spec_words(s)[i] == spec_words(s.drop_first())[i]);
        }
    } else {
        lemma_find_space_bounds(s);
        lemma_words_nonempty(s.skip(find_space(s)));
        assert(spec_words(s) == seq![s.take(find_space(s))] + spec_words(s.skip(find_space(s))));
        assert forall|i: int|
            0 <= i < spec_words(s).len() implies (#[trigger] spec_words(s)[i]).len() > 0 by {
            if i > 0 {
                assert(spec_words(s)[i] == spec_words(s.skip(find_space(s)))[i - 1]);
            } else {
                assert(spec_words(s)[0] == s.take(find_space(s)));
                assert(s.take(find_space(s)).len() == find_space(s));
            }
        }
    }
}

/// A piece of text with any single trailing carriage return removed, as a
/// line read up to a line feed keeps no carriage return.
pub open spec fn strip_cr(s: Seq<char>) -> Seq<char> {
    if s.len() > 0 && s.last() == '\r' {
        s.drop_last()
    } else {
        s
    }
}

/// The lines of `s`: pieces between line feeds, each stripped of a carriage
/// return left by a two-character line ending. The piece after the last
/// line feed stands as it is.
pub open spec fn spec_lines(s: Seq<char>) -> Seq<Seq<char>>
    decreases s.len(),
    via spec_lines_decreases
{
    let i = find_char(s, '\n');
    if i == s.len() {
        seq![s]
    } else {
        seq![strip_cr(s.take(i))] + spec_lines(s.skip(i + 1))
    }
}

#[via_fn]
proof fn spec_lines_decreases(s: Seq<char>) {
    lemma_find_char(s, '\n');
}

/// Splits a string slice into its lines.
pub fn split_lines(s: &str) -> (r: Vec<&str>)
    ensures
        r@.map_values(|w: &str| w@) == spec_lines(s@),
{
    let mut out: Vec<&str> = Vec::new();
    let n = s.unicode_len();
    let mut i: usize = 0;
    proof {
        assert(s@.skip(0) =~= s@);
        assert(out@.map_values(|w: &str| w@) + spec_lines(s@.skip(0)) =~= spec_lines(s@));
    }
    loop
        invariant
            0 <= i <= n,
            n == s@.len(),
            out@.map_values(|w: &str| w@) + spec_lines(s@.skip(i as int)) == spec_lines(s@),
        decreases n - i,
    {
        let j = find_from(s, i, '\n');
        let ghost rest = s@.skip(i as int);
        proof {
            lemma_find_char_skip(s@, '\n', i as int, j as int);
        }
        let end = if j > i && s.get_char(j - 1) == '\r' {
            j - 1
        } else {
            j
        };
        let ghost out_before = out@.map_values(|w: &str| w@);
        let piece = s.substring_char(i, end);
        if j >= n {
            // the piece after the last line feed keeps any carriage return
            let piece_last = s.substring_char(i, j);
            out.push(piece_last);
            proof {
                assert(find_char(rest, '\n') == rest.len());
                assert(piece_last@ =~= rest);
                assert(out@.map_values(|w: &str| w@) =~= out_before.push(rest));
                assert(out_before.push(rest) + Seq::<Seq<char>>::empty() =~= out_before + seq![
                    rest,
                ]);
                assert(spec_lines(rest) == seq![rest]);
            }
            return out;
        }
        out.push(piece);
        proof {
            assert(find_char(rest, '\n') == j - i);
            assert(rest.take(j - i) =~= s@.subrange(i as int, j as int));
            assert(piece@ =~= strip_cr(rest.take(j - i)));
            assert(rest.skip(j - i + 1) =~= s@.skip(j + 1));
            assert(out@.map_values(|w: &str| w@) =~= out_before.push(piece@));
            assert(out_before.push(piece@) + spec_lines(s@.skip(j + 1)) =~= out_before + (seq![
                strip_cr(rest.take(j - i)),
            ] + spec_lines(rest.skip(j - i + 1))));
        }
        i = j + 1;
    }
}

} // verus!
