//! Character-level helpers shared by the parsers and formatters: decimal
//! numerals, optional white space and the copying of string contents.

use vstd::prelude::*;

verus! {

/// An ASCII decimal digit.
pub open spec fn is_digit(c: char) -> bool {
    '0' <= c && c <= '9'
}

/// The value of an ASCII decimal digit.
pub open spec fn digit_value(c: char) -> nat {
    (c as int - '0' as int) as nat
}

/// The digit character for `d < 10`.
pub open spec fn digit_char(d: nat) -> char {
    (d + '0' as int) as char
}

/// The value of a sequence of decimal digits, most significant first.
pub open spec fn numeral_value(d: Seq<char>) -> nat
    decreases d.len(),
{
    if d.len() == 0 {
        0
    } else {
        numeral_value(d.drop_last()) * 10 + digit_value(d.last())
    }
}

/// The shortest decimal numeral of `n` (no leading zeros, "0" for zero).
pub open spec fn decimal(n: nat) -> Seq<char>
    decreases n,
{
    if n < 10 {
        seq![digit_char(n)]
    } else {
        decimal(n / 10).push(digit_char(n % 10))
    }
}

/// The first position at or after `i` that does not hold a decimal digit.
pub open spec fn digits_end(s: Seq<char>, i: int) -> int
    decreases s.len() - i,
{
    if 0 <= i < s.len() && is_digit(s[i]) {
        digits_end(s, i + 1)
    } else {
        i
    }
}

/// Optional white space as RFC 9110 defines it: a space or a horizontal tab.
pub open spec fn is_ows(c: char) -> bool {
    c == ' ' || c == '\t'
}

/// The first position at or after `i` that does not hold optional white space.
pub open spec fn ows_end(s: Seq<char>, i: int) -> int
    decreases s.len() - i,
{
    if 0 <= i < s.len() && is_ows(s[i]) {
        ows_end(s, i + 1)
    } else {
        i
    }
}

/// The unsigned 64-bit number that starts at `i`: the longest run of digits
/// there, refused when the run is empty or its value does not fit in 64 bits.
/// On success, the value and the position after the run.
pub open spec fn u64_at(s: Seq<char>, i: int) -> Option<(u64, int)> {
    let j = digits_end(s, i);
    if j > i && numeral_value(s.subrange(i, j)) <= u64::MAX {
        Some((numeral_value(s.subrange(i, j)) as u64, j))
    } else {
        None
    }
}

pub proof fn lemma_digits_end_bounds(s: Seq<char>, i: int)
    requires
        0 <= i <= s.len(),
    ensures
        i <= digits_end(s, i) <= s.len(),
        forall|k: int| i <= k < digits_end(s, i) ==> is_digit(#[trigger] s[k]),
        digits_end(s, i) < s.len() ==> !is_digit(s[digits_end(s, i)]),
    decreases s.len() - i,
{
    if i < s.len() && is_digit(s[i]) {
        lemma_digits_end_bounds(s, i + 1);
    }
}

pub proof fn lemma_ows_end_bounds(s: Seq<char>, i: int)
    requires
        0 <= i <= s.len(),
    ensures
        i <= ows_end(s, i) <= s.len(),
        forall|k: int| i <= k < ows_end(s, i) ==> is_ows(#[trigger] s[k]),
        ows_end(s, i) < s.len() ==> !is_ows(s[ows_end(s, i)]),
    decreases s.len() - i,
{
    if i < s.len() && is_ows(s[i]) {
        lemma_ows_end_bounds(s, i + 1);
    }
}

/// `digits_end` only looks at the characters from `i` onward, up to the first
/// non-digit.
pub proof fn lemma_digits_end_frame(s: Seq<char>, t: Seq<char>, i: int, j: int)
    requires
        0 <= i <= j <= s.len(),
        0 <= i <= j <= t.len(),
        forall|k: int| i <= k < j ==> s[k] == t[k] && is_digit(#[trigger] s[k]),
        j < s.len() ==> !is_digit(s[j]),
        j < t.len() ==> !is_digit(t[j]),
    ensures
        digits_end(s, i) == j,
        digits_end(t, i) == j,
    decreases j - i,
{
    if i < j {
        assert(s[i] == t[i] && is_digit(s[i]));
        lemma_digits_end_frame(s, t, i + 1, j);
    }
}

/// `ows_end` only looks at the characters from `i` onward, up to the first
/// non-white-space character.
pub proof fn lemma_ows_end_frame(s: Seq<char>, i: int, j: int)
    requires
        0 <= i <= j <= s.len(),
        forall|k: int| i <= k < j ==> is_ows(#[trigger] s[k]),
        j < s.len() ==> !is_ows(s[j]),
    ensures
        ows_end(s, i) == j,
    decreases j - i,
{
    if i < j {
        lemma_ows_end_frame(s, i + 1, j);
    }
}

pub proof fn lemma_digit_char(d: nat)
    requires
        d < 10,
    ensures
        is_digit(digit_char(d)),
        digit_value(digit_char(d)) == d,
{
}

pub proof fn lemma_decimal(n: nat)
    ensures
        decimal(n).len() >= 1,
        forall|k: int| 0 <= k < decimal(n).len() ==> is_digit(#[trigger] decimal(n)[k]),
        numeral_value(decimal(n)) == n,
    decreases n,
{
    if n < 10 {
        lemma_digit_char(n);
        assert(decimal(n).drop_last() =~= Seq::<char>::empty());
        assert(numeral_value(Seq::<char>::empty()) == 0);
        assert(numeral_value(decimal(n)) == numeral_value(decimal(n).drop_last()) * 10
            + digit_value(decimal(n).last()));
    } else {
        lemma_decimal(n / 10);
        lemma_digit_char(n % 10);
        assert(decimal(n).drop_last() =~= decimal(n / 10));
        assert(decimal(n).last() == digit_char(n % 10));
        assert(numeral_value(decimal(n)) == numeral_value(decimal(n / 10)) * 10 + digit_value(
            digit_char(n % 10),
        ));
        assert((n / 10) * 10 + n % 10 == n);
    }
}

/// The numeral value only grows when a digit is appended.
pub proof fn lemma_numeral_value_prefix(d: Seq<char>, k: int)
    requires
        0 <= k <= d.len(),
    ensures
        numeral_value(d.take(k)) <= numeral_value(d),
    decreases d.len() - k,
{
    if k < d.len() {
        lemma_numeral_value_prefix(d, k + 1);
        assert(d.take(k + 1).drop_last() =~= d.take(k));
    } else {
        assert(d.take(k) =~= d);
    }
}

/// A numeral written out at `i`, followed by a non-digit or the end, reads
/// back as its value.
pub proof fn lemma_u64_at_decimal(s: Seq<char>, i: int, n: u64)
    requires
        0 <= i,
        i + decimal(n as nat).len() <= s.len(),
        s.subrange(i, i + decimal(n as nat).len()) == decimal(n as nat),
        i + decimal(n as nat).len() < s.len() ==> !is_digit(s[i + decimal(n as nat).len()]),
    ensures
        u64_at(s, i) == Some((n, i + decimal(n as nat).len())),
{
    let d = decimal(n as nat);
    let j = i + d.len();
    lemma_decimal(n as nat);
    assert forall|k: int| i <= k < j implies is_digit(#[trigger] s[k]) by {
        assert(s[k] == s.subrange(i, j)[k - i]);
    }
    lemma_digits_end_frame(s, s, i, j);
}

/// The digit string for `d < 10`.
pub fn digit_str(d: u64) -> (r: &'static str)
    requires
        d < 10,
    ensures
        r@ == seq![digit_char(d as nat)],
{
    if d == 0 {
        proof { reveal_strlit("0"); }
        "0"
    } else if d == 1 {
        proof { reveal_strlit("1"); }
        "1"
    } else if d == 2 {
        proof { reveal_strlit("2"); }
        "2"
    } else if d == 3 {
        proof { reveal_strlit("3"); }
        "3"
    } else if d == 4 {
        proof { reveal_strlit("4"); }
        "4"
    } else if d == 5 {
        proof { reveal_strlit("5"); }
        "5"
    } else if d == 6 {
        proof { reveal_strlit("6"); }
        "6"
    } else if d == 7 {
        proof { reveal_strlit("7"); }
        "7"
    } else if d == 8 {
        proof { reveal_strlit("8"); }
        "8"
    } else {
        proof { reveal_strlit("9"); }
        "9"
    }
}

/// Appends the shortest decimal numeral of `n` to `out`.
pub fn push_decimal(out: &mut String, n: u64)
    ensures
        final(out)@ == old(out)@ + decimal(n as nat),
    decreases n,
{
    if n >= 10 {
        push_decimal(out, n / 10);
        out.append(digit_str(n % 10));
        assert(decimal(n as nat) == decimal((n / 10) as nat).push(digit_char((n % 10) as nat)));
    } else {
        out.append(digit_str(n));
    }
}

/// Copies the characters of `s` into a vector.
pub fn str_chars(s: &str) -> (v: Vec<char>)
    ensures
        v@ == s@,
{
    let n = s.unicode_len();
    let mut v: Vec<char> = Vec::new();
    let mut i: usize = 0;
    while i < n
        invariant
            n == s@.len(),
            i <= n,
            v@ == s@.take(i as int),
        decreases n - i,
    {
        let c = s.get_char(i);
        v.push(c);
        i = i + 1;
        assert(v@ =~= s@.take(i as int));
    }
    assert(s@.take(n as int) =~= s@);
    v
}

/// The end of the optional white space that starts at `i`.
pub fn skip_ows(s: &Vec<char>, i: usize) -> (j: usize)
    requires
        i <= s@.len(),
    ensures
        j as int == ows_end(s@, i as int),
{
    let mut j = i;
    while j < s.len() && (s[j] == ' ' || s[j] == '\t')
        invariant
            i <= j <= s@.len(),
            ows_end(s@, i as int) == ows_end(s@, j as int),
        decreases s@.len() - j,
    {
        j = j + 1;
    }
    j
}

/// Parses the unsigned 64-bit number that starts at `i`, as `u64_at` says.
pub fn parse_u64_at(s: &Vec<char>, i: usize) -> (r: Option<(u64, usize)>)
    requires
        i <= s@.len(),
    ensures
        match r {
            Some((v, j)) => u64_at(s@, i as int) == Some((v, j as int)),
            None => u64_at(s@, i as int) is None,
        },
{
    let mut j = i;
    let mut value: u64 = 0;
    let mut overflow = false;
    proof { lemma_digits_end_bounds(s@, i as int); }
    while j < s.len() && '0' <= s[j] && s[j] <= '9'
        invariant
            i <= j <= s@.len(),
            digits_end(s@, i as int) == digits_end(s@, j as int),
            forall|k: int| i <= k < j ==> is_digit(#[trigger] s@[k]),
            !overflow ==> value == numeral_value(s@.subrange(i as int, j as int)),
            overflow ==> numeral_value(s@.subrange(i as int, j as int)) > u64::MAX,
        decreases s@.len() - j,
    {
        let d = (s[j] as u32 - '0' as u32) as u64;
        let ghost prev = s@.subrange(i as int, j as int);
        let ghost next = s@.subrange(i as int, j + 1);
        assert(next.drop_last() =~= prev);
        assert(numeral_value(next) == numeral_value(prev) * 10 + d);
        if !overflow {
            if value > (u64::MAX - d) / 10 {
                overflow = true;
                assert(numeral_value(next) > u64::MAX) by (nonlinear_arith)
                    requires
                        numeral_value(next) == value * 10 + d,
                        value > (u64::MAX - d) / 10,
                        d < 10,
                ;
            } else {
                assert(value * 10 + d <= u64::MAX) by (nonlinear_arith)
                    requires
                        value <= (u64::MAX - d) / 10,
                        d < 10,
                ;
                value = value * 10 + d;
            }
        } else {
            assert(numeral_value(next) >= numeral_value(prev)) by (nonlinear_arith)
                requires
                    numeral_value(next) == numeral_value(prev) * 10 + d,
            ;
        }
        j = j + 1;
    }
    if j == i || overflow {
        None
    } else {
        Some((value, j))
    }
}

/// The spelling takes two lowercase hexadecimal digits per byte.
pub proof fn lemma_hex_lower(b: Seq<u8>)
    ensures
        hex_lower(b).len() == 2 * b.len(),
        forall|i: int| 0 <= i < hex_lower(b).len() ==> is_lower_hex_digit(#[trigger] hex_lower(b)[i]),
    decreases b.len(),
{
    if b.len() > 0 {
        lemma_hex_lower(b.drop_last());
        let pre = hex_lower(b.drop_last());
        let hi = (b.last() / 16) as nat;
        let lo = (b.last() % 16) as nat;
        assert forall|i: int| 0 <= i < hex_lower(b).len() implies is_lower_hex_digit(#[trigger] hex_lower(b)[i]) by {
            if i >= pre.len() {
                assert(hex_lower(b)[i] == seq![hex_digit(hi), hex_digit(lo)][i - pre.len()]);
            } else {
                assert(hex_lower(b)[i] == pre[i]);
            }
        }
    }
}

/// The lowercase hexadecimal digit for `d < 16`.
pub open spec fn hex_digit(d: nat) -> char {
    if d < 10 {
        (d + '0' as int) as char
    } else {
        (d - 10 + 'a' as int) as char
    }
}

/// A lowercase hexadecimal digit.
pub open spec fn is_lower_hex_digit(c: char) -> bool {
    ('0' <= c && c <= '9') || ('a' <= c && c <= 'f')
}

/// The lowercase hexadecimal spelling of `b`, two digits per byte.
pub open spec fn hex_lower(b: Seq<u8>) -> Seq<char>
    decreases b.len(),
{
    if b.len() == 0 {
        Seq::empty()
    } else {
        hex_lower(b.drop_last()) + seq![hex_digit((b.last() / 16) as nat), hex_digit((b.last() % 16) as nat)]
    }
}

/// The digit string for `d < 16`.
pub fn hex_digit_str(d: u8) -> (r: &'static str)
    requires
        d < 16,
    ensures
        r@ == seq![hex_digit(d as nat)],
{
    if d == 0 {
        proof { reveal_strlit("0"); }
        "0"
    } else if d == 1 {
        proof { reveal_strlit("1"); }
        "1"
    } else if d == 2 {
        proof { reveal_strlit("2"); }
        "2"
    } else if d == 3 {
        proof { reveal_strlit("3"); }
        "3"
    } else if d == 4 {
        proof { reveal_strlit("4"); }
        "4"
    } else if d == 5 {
        proof { reveal_strlit("5"); }
        "5"
    } else if d == 6 {
        proof { reveal_strlit("6"); }
        "6"
    } else if d == 7 {
        proof { reveal_strlit("7"); }
        "7"
    } else if d == 8 {
        proof { reveal_strlit("8"); }
        "8"
    } else if d == 9 {
        proof { reveal_strlit("9"); }
        "9"
    } else if d == 10 {
        proof { reveal_strlit("a"); }
        "a"
    } else if d == 11 {
        proof { reveal_strlit("b"); }
        "b"
    } else if d == 12 {
        proof { reveal_strlit("c"); }
        "c"
    } else if d == 13 {
        proof { reveal_strlit("d"); }
        "d"
    } else if d == 14 {
        proof { reveal_strlit("e"); }
        "e"
    } else {
        proof { reveal_strlit("f"); }
        "f"
    }
}

/// The lowercase hexadecimal spelling of `bytes`.
pub fn hex_encode(bytes: &[u8]) -> (s: String)
    ensures
        s@ == hex_lower(bytes@),
{
    let mut s = String::new();
    let mut i: usize = 0;
    while i < bytes.len()
        invariant
            i <= bytes@.len(),
            s@ == hex_lower(bytes@.take(i as int)),
        decreases bytes@.len() - i,
    {
        let b = bytes[i];
        s.append(hex_digit_str(b / 16));
        s.append(hex_digit_str(b % 16));
        assert(bytes@.take(i + 1).drop_last() =~= bytes@.take(i as int));
        i = i + 1;
    }
    assert(bytes@.take(bytes@.len() as int) =~= bytes@);
    s
}

/// The one-character string of a printable ASCII byte.
pub fn ascii_str(b: u8) -> (r: &'static str)
    requires
        32 <= b < 127,
    ensures
        r@ == seq![b as char],
{
    if b == 32 {
        proof { reveal_strlit(" "); }
        " "
    } else if b == 33 {
        proof { reveal_strlit("!"); }
        "!"
    } else if b == 34 {
        proof { reveal_strlit("\""); }
        "\""
    } else if b == 35 {
        proof { reveal_strlit("#"); }
        "#"
    } else if b == 36 {
        proof { reveal_strlit("$"); }
        "$"
    } else if b == 37 {
        proof { reveal_strlit("%"); }
        "%"
    } else if b == 38 {
        proof { reveal_strlit("&"); }
        "&"
    } else if b == 39 {
        proof { reveal_strlit("'"); }
        "'"
    } else if b == 40 {
        proof { reveal_strlit("("); }
        "("
    } else if b == 41 {
        proof { reveal_strlit(")"); }
        ")"
    } else if b == 42 {
        proof { reveal_strlit("*"); }
        "*"
    } else if b == 43 {
        proof { reveal_strlit("+"); }
        "+"
    } else if b == 44 {
        proof { reveal_strlit(","); }
        ","
    } else if b == 45 {
        proof { reveal_strlit("-"); }
        "-"
    } else if b == 46 {
        proof { reveal_strlit("."); }
        "."
    } else if b == 47 {
        proof { reveal_strlit("/"); }
        "/"
    } else if b == 48 {
        proof { reveal_strlit("0"); }
        "0"
    } else if b == 49 {
        proof { reveal_strlit("1"); }
        "1"
    } else if b == 50 {
        proof { reveal_strlit("2"); }
        "2"
    } else if b == 51 {
        proof { reveal_strlit("3"); }
        "3"
    } else if b == 52 {
        proof { reveal_strlit("4"); }
        "4"
    } else if b == 53 {
        proof { reveal_strlit("5"); }
        "5"
    } else if b == 54 {
        proof { reveal_strlit("6"); }
        "6"
    } else if b == 55 {
        proof { reveal_strlit("7"); }
        "7"
    } else if b == 56 {
        proof { reveal_strlit("8"); }
        "8"
    } else if b == 57 {
        proof { reveal_strlit("9"); }
        "9"
    } else if b == 58 {
        proof { reveal_strlit(":"); }
        ":"
    } else if b == 59 {
        proof { reveal_strlit(";"); }
        ";"
    } else if b == 60 {
        proof { reveal_strlit("<"); }
        "<"
    } else if b == 61 {
        proof { reveal_strlit("="); }
        "="
    } else if b == 62 {
        proof { reveal_strlit(">"); }
        ">"
    } else if b == 63 {
        proof { reveal_strlit("?"); }
        "?"
    } else if b == 64 {
        proof { reveal_strlit("@"); }
        "@"
    } else if b == 65 {
        proof { reveal_strlit("A"); }
        "A"
    } else if b == 66 {
        proof { reveal_strlit("B"); }
        "B"
    } else if b == 67 {
        proof { reveal_strlit("C"); }
        "C"
    } else if b == 68 {
        proof { reveal_strlit("D"); }
        "D"
    } else if b == 69 {
        proof { reveal_strlit("E"); }
        "E"
    } else if b == 70 {
        proof { reveal_strlit("F"); }
        "F"
    } else if b == 71 {
        proof { reveal_strlit("G"); }
        "G"
    } else if b == 72 {
        proof { reveal_strlit("H"); }
        "H"
    } else if b == 73 {
        proof { reveal_strlit("I"); }
        "I"
    } else if b == 74 {
        proof { reveal_strlit("J"); }
        "J"
    } else if b == 75 {
        proof { reveal_strlit("K"); }
        "K"
    } else if b == 76 {
        proof { reveal_strlit("L"); }
        "L"
    } else if b == 77 {
        proof { reveal_strlit("M"); }
        "M"
    } else if b == 78 {
        proof { reveal_strlit("N"); }
        "N"
    } else if b == 79 {
        proof { reveal_strlit("O"); }
        "O"
    } else if b == 80 {
        proof { reveal_strlit("P"); }
        "P"
    } else if b == 81 {
        proof { reveal_strlit("Q"); }
        "Q"
    } else if b == 82 {
        proof { reveal_strlit("R"); }
        "R"
    } else if b == 83 {
        proof { reveal_strlit("S"); }
        "S"
    } else if b == 84 {
        proof { reveal_strlit("T"); }
        "T"
    } else if b == 85 {
        proof { reveal_strlit("U"); }
        "U"
    } else if b == 86 {
        proof { reveal_strlit("V"); }
        "V"
    } else if b == 87 {
        proof { reveal_strlit("W"); }
        "W"
    } else if b == 88 {
        proof { reveal_strlit("X"); }
        "X"
    } else if b == 89 {
        proof { reveal_strlit("Y"); }
        "Y"
    } else if b == 90 {
        proof { reveal_strlit("Z"); }
        "Z"
    } else if b == 91 {
        proof { reveal_strlit("["); }
        "["
    } else if b == 92 {
        proof { reveal_strlit("\\"); }
        "\\"
    } else if b == 93 {
        proof { reveal_strlit("]"); }
        "]"
    } else if b == 94 {
        proof { reveal_strlit("^"); }
        "^"
    } else if b == 95 {
        proof { reveal_strlit("_"); }
        "_"
    } else if b == 96 {
        proof { reveal_strlit("`"); }
        "`"
    } else if b == 97 {
        proof { reveal_strlit("a"); }
        "a"
    } else if b == 98 {
        proof { reveal_strlit("b"); }
        "b"
    } else if b == 99 {
        proof { reveal_strlit("c"); }
        "c"
    } else if b == 100 {
        proof { reveal_strlit("d"); }
        "d"
    } else if b == 101 {
        proof { reveal_strlit("e"); }
        "e"
    } else if b == 102 {
        proof { reveal_strlit("f"); }
        "f"
    } else if b == 103 {
        proof { reveal_strlit("g"); }
        "g"
    } else if b == 104 {
        proof { reveal_strlit("h"); }
        "h"
    } else if b == 105 {
        proof { reveal_strlit("i"); }
        "i"
    } else if b == 106 {
        proof { reveal_strlit("j"); }
        "j"
    } else if b == 107 {
        proof { reveal_strlit("k"); }
        "k"
    } else if b == 108 {
        proof { reveal_strlit("l"); }
        "l"
    } else if b == 109 {
        proof { reveal_strlit("m"); }
        "m"
    } else if b == 110 {
        proof { reveal_strlit("n"); }
        "n"
    } else if b == 111 {
        proof { reveal_strlit("o"); }
        "o"
    } else if b == 112 {
        proof { reveal_strlit("p"); }
        "p"
    } else if b == 113 {
        proof { reveal_strlit("q"); }
        "q"
    } else if b == 114 {
        proof { reveal_strlit("r"); }
        "r"
    } else if b == 115 {
        proof { reveal_strlit("s"); }
        "s"
    } else if b == 116 {
        proof { reveal_strlit("t"); }
        "t"
    } else if b == 117 {
        proof { reveal_strlit("u"); }
        "u"
    } else if b == 118 {
        proof { reveal_strlit("v"); }
        "v"
    } else if b == 119 {
        proof { reveal_strlit("w"); }
        "w"
    } else if b == 120 {
        proof { reveal_strlit("x"); }
        "x"
    } else if b == 121 {
        proof { reveal_strlit("y"); }
        "y"
    } else if b == 122 {
        proof { reveal_strlit("z"); }
        "z"
    } else if b == 123 {
        proof { reveal_strlit("{"); }
        "{"
    } else if b == 124 {
        proof { reveal_strlit("|"); }
        "|"
    } else if b == 125 {
        proof { reveal_strlit("}"); }
        "}"
    } else {
        proof { reveal_strlit("~"); }
        "~"
    }
}

/// `n` in decimal, left-padded with zeros to at least `width` digits.
pub open spec fn zero_padded(n: nat, width: nat) -> Seq<char>
    decreases width,
{
    if decimal(n).len() >= width {
        decimal(n)
    } else {
        seq!['0'] + zero_padded(n, (width - 1) as nat)
    }
}

/// Appends `n` in decimal, left-padded with zeros to at least `width` digits.
pub fn push_zero_padded(out: &mut String, n: u64, width: u64)
    ensures
        final(out)@ == old(out)@ + zero_padded(n as nat, width as nat),
{
    let mut t = String::new();
    push_decimal(&mut t, n);
    let l = t.unicode_len() as u64;
    assert(t@ == decimal(n as nat));
    let mut w = width;
    let ghost start = out@;
    while w > l
        invariant
            l == decimal(n as nat).len(),
            w <= width,
            start + zero_padded(n as nat, width as nat) == out@ + zero_padded(n as nat, w as nat),
        decreases w,
    {
        let ghost before = out@;
        proof { reveal_strlit("0"); }
        out.append("0");
        assert(zero_padded(n as nat, w as nat) == seq!['0'] + zero_padded(n as nat, (w - 1) as nat));
        assert(before + zero_padded(n as nat, w as nat) =~= out@ + zero_padded(n as nat, (w - 1) as nat));
        w = w - 1;
    }
    assert(zero_padded(n as nat, w as nat) == decimal(n as nat));
    out.append(t.as_str());
}

} // verus!
