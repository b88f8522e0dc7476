//! Text as sequences of characters: case folding, numbers in decimal and
//! hexadecimal, joining, splitting, ordering, and UTF-16.

use vstd::prelude::*;
use vstd::string::*;

verus! {

/// `String::push`: the character is appended at the end of the text.
pub assume_specification[ String::push ](receiver: &mut String, c: char)
    ensures
        final(receiver)@ == old(receiver)@.push(c),
;

/// `char::from_u32`: a character exists exactly for the Unicode scalar values,
/// that is, for every number up to `0x10FFFF` that is no surrogate, and it is
/// the character with that number.
pub assume_specification[ char::from_u32 ](code: u32) -> (c: Option<char>)
    ensures
        c is Some <==> is_scalar(code),
        c matches Some(found) ==> found as u32 == code,
;

/// Whether `code` is a Unicode scalar value.
pub open spec fn is_scalar(code: u32) -> bool {
    code <= 0x10FFFF && !(0xD800 <= code && code <= 0xDFFF)
}

// ---------------------------------------------------------------------------
// Case folding
// ---------------------------------------------------------------------------

/// `c` with `A` to `Z` mapped to `a` to `z`.
pub open spec fn lower_char(c: char) -> char {
    if 'A' <= c && c <= 'Z' {
        ((c as u32) + 32) as char
    } else {
        c
    }
}

/// Every character of `text` in ASCII lower case.
pub open spec fn lower(text: Seq<char>) -> Seq<char> {
    text.map_values(|c: char| lower_char(c))
}

/// Only the 26 capitals change, each to the small letter 32 places on; texts
/// keep their length, and folding twice is folding once.
pub proof fn lemma_lower(text: Seq<char>, c: char)
    ensures
        65 <= (c as u32) <= 90 ==> lower_char(c) as u32 == c as u32 + 32,
        (c as u32) < 65 || (c as u32) > 90 ==> lower_char(c) == c,
        lower(text).len() == text.len(),
        forall|i: int| 0 <= i < text.len() ==> #[trigger] lower(text)[i] == lower_char(text[i]),
        lower(lower(text)) == lower(text),
{
    assert(lower(lower(text)) =~= lower(text));
}

/// Maps an ASCII capital to its small letter.
pub fn lowercase_char(c: char) -> (r: char)
    ensures
        r == lower_char(c),
{
    if 'A' <= c && c <= 'Z' {
        let code: u32 = c as u32;
        ((code + 32) as u8) as char
    } else {
        c
    }
}

/// The text in ASCII lower case.
pub fn lowercase(text: &str) -> (r: String)
    ensures
        r@ == lower(text@),
{
    let mut out = String::new();
    for c in it: text.chars()
        invariant
            it.seq() == text@,
            out@ == lower(text@.take(it.index())),
    {
        proof {
            assert(text@.take(it.index() + 1) =~= text@.take(it.index()).push(c));
        }
        out.push(lowercase_char(c));
    }
    proof {
        assert(text@.take(text@.len() as int) =~= text@);
    }
    out
}

/// The characters of a text as a vector.
pub fn chars_of(text: &str) -> (r: Vec<char>)
    ensures
        r@ == text@,
{
    let mut out: Vec<char> = Vec::new();
    for c in it: text.chars()
        invariant
            it.seq() == text@,
            out@ == text@.take(it.index()),
    {
        proof {
            assert(text@.take(it.index() + 1) =~= text@.take(it.index()).push(c));
        }
        out.push(c);
    }
    proof {
        assert(text@.take(text@.len() as int) =~= text@);
    }
    out
}

/// The text made of the characters from `start` to `end`.
pub fn text_between(chars: &Vec<char>, start: usize, end: usize) -> (r: String)
    requires
        start <= end <= chars@.len(),
    ensures
        r@ == chars@.subrange(start as int, end as int),
{
    let mut out = String::new();
    let mut index: usize = start;
    while index < end
        invariant
            start <= index <= end <= chars@.len(),
            out@ == chars@.subrange(start as int, index as int),
        decreases end - index,
    {
        proof {
            assert(chars@.subrange(start as int, index + 1) =~= chars@.subrange(
                start as int,
                index as int,
            ).push(chars@[index as int]));
        }
        out.push(chars[index]);
        index = index + 1;
    }
    out
}

/// Whether two texts are the same characters.
pub fn same_text(a: &str, b: &str) -> (r: bool)
    ensures
        r == (a@ == b@),
{
    let left = chars_of(a);
    let right = chars_of(b);
    if left.len() != right.len() {
        return false;
    }
    let mut index: usize = 0;
    while index < left.len()
        invariant
            index <= left@.len(),
            left@.len() == right@.len(),
            left@ == a@,
            right@ == b@,
            forall|i: int| 0 <= i < index ==> left@[i] == right@[i],
        decreases left@.len() - index,
    {
        if left[index] != right[index] {
            return false;
        }
        index = index + 1;
    }
    proof {
        assert(a@ =~= b@);
    }
    true
}

/// Whether two texts differ in ASCII case only.
pub fn same_text_ignoring_case(a: &str, b: &str) -> (r: bool)
    ensures
        r == (lower(a@) == lower(b@)),
{
    let left = lowercase(a);
    let right = lowercase(b);
    left == right
}

// ---------------------------------------------------------------------------
// Numbers
// ---------------------------------------------------------------------------

/// The decimal digit `d`.
pub open spec fn digit(d: nat) -> char {
    (('0' as u32) + d) as char
}

/// `n` in decimal, without leading zeros.
pub open spec fn decimal(n: nat) -> Seq<char>
    decreases n,
{
    if n < 10 {
        seq![digit(n)]
    } else {
        decimal(n / 10).push(digit(n % 10))
    }
}

/// `n` in decimal, with a minus sign where it is negative.
pub open spec fn signed_decimal(n: int) -> Seq<char> {
    if n < 0 {
        seq!['-'] + decimal((-n) as nat)
    } else {
        decimal(n as nat)
    }
}

/// A number in decimal is made of digits.
pub proof fn lemma_decimal_digits(n: nat)
    ensures
        decimal(n).len() > 0,
        forall|i: int| 0 <= i < decimal(n).len() ==> '0' <= #[trigger] decimal(n)[i] <= '9',
    decreases n,
{
    if n >= 10 {
        lemma_decimal_digits(n / 10);
    }
}

/// Different numbers differ in decimal.
pub proof fn lemma_decimal_tells_apart(a: nat, b: nat)
    requires
        decimal(a) == decimal(b),
    ensures
        a == b,
    decreases a,
{
    lemma_decimal_digits(a / 10);
    lemma_decimal_digits(b / 10);
    assert(decimal(a).last() == digit(a % 10));
    assert(decimal(b).last() == digit(b % 10));
    if a >= 10 && b >= 10 {
        assert(decimal(a).drop_last() =~= decimal(a / 10));
        assert(decimal(b).drop_last() =~= decimal(b / 10));
        lemma_decimal_tells_apart(a / 10, b / 10);
    }
}

/// A number in decimal with its sign is made of digits and minus signs, and
/// different numbers differ.
pub proof fn lemma_signed_decimal(a: int, b: int)
    ensures
        forall|i: int| 0 <= i < signed_decimal(a).len() ==> #[trigger] signed_decimal(a)[i] != ':',
        signed_decimal(a) == signed_decimal(b) ==> a == b,
{
    let size_a = if a < 0 { (-a) as nat } else { a as nat };
    let size_b = if b < 0 { (-b) as nat } else { b as nat };
    lemma_decimal_digits(size_a);
    lemma_decimal_digits(size_b);
    if signed_decimal(a) == signed_decimal(b) {
        assert((a < 0) == (signed_decimal(a)[0] == '-'));
        assert((b < 0) == (signed_decimal(b)[0] == '-'));
        if a < 0 {
            assert(signed_decimal(a).skip(1) =~= decimal(size_a));
            assert(signed_decimal(b).skip(1) =~= decimal(size_b));
        }
        lemma_decimal_tells_apart(size_a, size_b);
    }
}

/// What stands before and after the first of a mark is settled by the whole.
pub proof fn lemma_first_mark(
    a: Seq<char>,
    x: Seq<char>,
    b: Seq<char>,
    y: Seq<char>,
    mark: char,
)
    requires
        !a.contains(mark),
        !b.contains(mark),
        a + seq![mark] + x == b + seq![mark] + y,
    ensures
        a == b,
        x == y,
{
    let whole = a + seq![mark] + x;
    if a.len() < b.len() {
        assert(whole[a.len() as int] == mark);
        assert(b[a.len() as int] == mark);
    } else if b.len() < a.len() {
        assert(whole[b.len() as int] == mark);
        assert(a[b.len() as int] == mark);
    }
    assert(whole.take(a.len() as int) =~= a);
    assert(whole.take(b.len() as int) =~= b);
    assert(whole.skip(a.len() as int + 1) =~= x);
    assert(whole.skip(b.len() as int + 1) =~= y);
}

/// The number that decimal digits stand for.
pub open spec fn number_of(digits: Seq<char>) -> int
    decreases digits.len(),
{
    if digits.len() == 0 {
        0
    } else {
        10 * number_of(digits.drop_last()) + (digits.last() as u32 - 48)
    }
}

/// A number in decimal reads as that number, and begins with a zero only where
/// it is zero.
pub proof fn lemma_decimal_reads_back(n: nat)
    ensures
        number_of(decimal(n)) == n,
        decimal(n).len() > 0,
        decimal(n).len() > 1 ==> decimal(n)[0] != '0',
        decimal(n).len() == 1 <==> n < 10,
    decreases n,
{
    reveal_with_fuel(number_of, 2);
    if n >= 10 {
        let front = decimal(n / 10);
        lemma_decimal_reads_back(n / 10);
        assert(decimal(n).drop_last() =~= front);
        assert(decimal(n).last() == digit(n % 10));
        assert(digit(n % 10) as u32 == 48 + n % 10);
        assert(decimal(n)[0] == front[0]);
        if front.len() == 1 {
            assert(front[0] as u32 == 48 + n / 10);
        }
    } else {
        assert(digit(n) as u32 == 48 + n);
        assert(decimal(n).drop_last() =~= Seq::empty());
    }
}

/// A negative number is written as a minus sign and its size, any other as it
/// is.
pub proof fn lemma_signs(n: int)
    ensures
        n >= 0 ==> signed_decimal(n) == decimal(n as nat),
        n > 0 ==> signed_decimal(-n) == seq!['-'] + signed_decimal(n),
{
}

fn digit_char(d: u64) -> (r: char)
    requires
        d < 10,
    ensures
        r == digit(d as nat),
{
    (48 + d as u8) as char
}

/// A number in decimal.
pub fn decimal_text(n: u64) -> (r: String)
    ensures
        r@ == decimal(n as nat),
    decreases n,
{
    if n < 10 {
        let mut out = String::new();
        out.push(digit_char(n));
        proof {
            assert(out@ =~= seq![digit(n as nat)]);
        }
        out
    } else {
        let mut out = decimal_text(n / 10);
        out.push(digit_char(n % 10));
        out
    }
}

/// A number in decimal, with a minus sign where it is negative.
pub fn signed_decimal_text(n: i64) -> (r: String)
    requires
        n > i64::MIN,
    ensures
        r@ == signed_decimal(n as int),
{
    if n < 0 {
        let mut out = String::new();
        out.push('-');
        let digits = decimal_text((-n) as u64);
        out.append(digits.as_str());
        proof {
            assert(out@ =~= seq!['-'] + decimal((-n) as nat));
        }
        out
    } else {
        decimal_text(n as u64)
    }
}

/// The hexadecimal digit `d` with capital letters.
pub open spec fn upper_hex_digit(d: nat) -> char {
    if d < 10 {
        digit(d)
    } else {
        (('A' as u32) + (d - 10)) as char
    }
}

/// The hexadecimal digit `d` with small letters.
pub open spec fn lower_hex_digit(d: nat) -> char {
    if d < 10 {
        digit(d)
    } else {
        (('a' as u32) + (d - 10)) as char
    }
}

/// `n` as four hexadecimal digits with capital letters.
pub open spec fn hex4(n: u16) -> Seq<char> {
    seq![
        upper_hex_digit((n / 4096) as nat),
        upper_hex_digit((n / 256 % 16) as nat),
        upper_hex_digit((n / 16 % 16) as nat),
        upper_hex_digit((n % 16) as nat),
    ]
}

/// What a hexadecimal digit stands for.
#[verifier::opaque]
pub open spec fn hex_value(c: char) -> int {
    if '0' <= c && c <= '9' {
        c as u32 - 48
    } else if 'A' <= c && c <= 'F' {
        c as u32 - 55
    } else {
        c as u32 - 87
    }
}

/// Four hexadecimal digits stand for the number that they were made of, and
/// have capital letters.
pub proof fn lemma_hex4(n: u16)
    ensures
        hex4(n).len() == 4,
        4096 * hex_value(hex4(n)[0]) + 256 * hex_value(hex4(n)[1]) + 16 * hex_value(hex4(n)[2])
            + hex_value(hex4(n)[3]) == n,
        forall|i: int|
            0 <= i < 4 ==> ('0' <= #[trigger] hex4(n)[i] && hex4(n)[i] <= '9') || ('A' <= hex4(n)[i]
                && hex4(n)[i] <= 'F'),
{
    let (a, b, c, d) = (n / 4096, n / 256 % 16, n / 16 % 16, n % 16);
    lemma_hex_digit(a as nat);
    lemma_hex_digit(b as nat);
    lemma_hex_digit(c as nat);
    lemma_hex_digit(d as nat);
    assert(4096 * a + 256 * b + 16 * c + d == n);
    let text = hex4(n);
    assert(text[0] == upper_hex_digit(a as nat));
    assert(text[1] == upper_hex_digit(b as nat));
    assert(text[2] == upper_hex_digit(c as nat));
    assert(text[3] == upper_hex_digit(d as nat));
}

proof fn lemma_hex_digit(d: nat)
    requires
        d < 16,
    ensures
        hex_value(upper_hex_digit(d)) == d,
        hex_value(lower_hex_digit(d)) == d,
        ('0' <= upper_hex_digit(d) && upper_hex_digit(d) <= '9') || ('A' <= upper_hex_digit(d)
            && upper_hex_digit(d) <= 'F'),
        ('0' <= lower_hex_digit(d) && lower_hex_digit(d) <= '9') || ('a' <= lower_hex_digit(d)
            && lower_hex_digit(d) <= 'f'),
{
    reveal(hex_value);
}

fn upper_hex_char(d: u16) -> (r: char)
    requires
        d < 16,
    ensures
        r == upper_hex_digit(d as nat),
{
    if d < 10 {
        (48 + d as u8) as char
    } else {
        (65 + (d as u8 - 10)) as char
    }
}

fn lower_hex_char(d: u8) -> (r: char)
    requires
        d < 16,
    ensures
        r == lower_hex_digit(d as nat),
{
    if d < 10 {
        (48 + d) as char
    } else {
        (97 + (d - 10)) as char
    }
}

/// A number as four hexadecimal digits with capital letters.
pub fn hex4_text(n: u16) -> (r: String)
    ensures
        r@ == hex4(n),
{
    let mut out = String::new();
    out.push(upper_hex_char(n / 4096));
    out.push(upper_hex_char(n / 256 % 16));
    out.push(upper_hex_char(n / 16 % 16));
    out.push(upper_hex_char(n % 16));
    proof {
        assert(out@ =~= hex4(n));
    }
    out
}

/// Two hexadecimal digits with small letters for each byte.
pub open spec fn hex_bytes(bytes: Seq<u8>) -> Seq<char> {
    Seq::new(
        2 * bytes.len(),
        |i: int|
            if i % 2 == 0 {
                lower_hex_digit((bytes[i / 2] / 16) as nat)
            } else {
                lower_hex_digit((bytes[i / 2] % 16) as nat)
            },
    )
}

/// Each byte is written as two hexadecimal digits that stand for it, the higher
/// one first, with small letters.
pub proof fn lemma_hex_bytes(bytes: Seq<u8>, at: int)
    requires
        0 <= at < bytes.len(),
    ensures
        hex_bytes(bytes).len() == 2 * bytes.len(),
        16 * hex_value(hex_bytes(bytes)[2 * at]) + hex_value(hex_bytes(bytes)[2 * at + 1])
            == bytes[at],
        ({
            let high = hex_bytes(bytes)[2 * at];
            let low = hex_bytes(bytes)[2 * at + 1];
            &&& ('0' <= high && high <= '9') || ('a' <= high && high <= 'f')
            &&& ('0' <= low && low <= '9') || ('a' <= low && low <= 'f')
        }),
{
    lemma_hex_digit((bytes[at] / 16) as nat);
    lemma_hex_digit((bytes[at] % 16) as nat);
    assert((2 * at) / 2 == at && (2 * at + 1) / 2 == at);
}

/// Bytes in hexadecimal with small letters.
pub fn hex_text(bytes: &Vec<u8>) -> (r: String)
    ensures
        r@ == hex_bytes(bytes@),
{
    let mut out = String::new();
    let mut index: usize = 0;
    while index < bytes.len()
        invariant
            index <= bytes@.len(),
            out@ == hex_bytes(bytes@.take(index as int)),
        decreases bytes@.len() - index,
    {
        let byte = bytes[index];
        out.push(lower_hex_char(byte / 16));
        out.push(lower_hex_char(byte % 16));
        proof {
            assert(out@ =~= hex_bytes(bytes@.take(index + 1)));
        }
        index = index + 1;
    }
    proof {
        assert(bytes@.take(bytes@.len() as int) =~= bytes@);
    }
    out
}

// ---------------------------------------------------------------------------
// Joining and splitting
// ---------------------------------------------------------------------------

/// The contents of a sequence of strings.
pub open spec fn texts(parts: Seq<String>) -> Seq<Seq<char>> {
    parts.map_values(|part: String| part@)
}

/// `parts` one after another, with `separator` between each two.
pub open spec fn join(parts: Seq<Seq<char>>, separator: Seq<char>) -> Seq<char>
    decreases parts.len(),
{
    if parts.len() == 0 {
        Seq::empty()
    } else if parts.len() == 1 {
        parts[0]
    } else {
        join(parts.drop_last(), separator) + separator + parts.last()
    }
}

/// Joining puts the separator between the parts and nowhere else.
pub proof fn lemma_join(parts: Seq<Seq<char>>, part: Seq<char>, separator: Seq<char>)
    ensures
        join(Seq::empty(), separator) == Seq::<char>::empty(),
        join(seq![part], separator) == part,
        parts.len() > 0 ==> join(parts.push(part), separator) == join(parts, separator) + separator
            + part,
{
    assert(parts.push(part).drop_last() =~= parts);
}

/// Joins texts with a separator between each two.
pub fn join_texts(parts: &Vec<String>, separator: &str) -> (r: String)
    ensures
        r@ == join(texts(parts@), separator@),
{
    let mut out = String::new();
    let mut index: usize = 0;
    while index < parts.len()
        invariant
            index <= parts@.len(),
            out@ == join(texts(parts@).take(index as int), separator@),
        decreases parts@.len() - index,
    {
        let ghost before = texts(parts@).take(index as int);
        let ghost after = texts(parts@).take(index + 1);
        proof {
            assert(after.drop_last() =~= before);
            assert(after.last() == parts@[index as int]@);
        }
        if index > 0 {
            out.append(separator);
        }
        out.append(parts[index].as_str());
        proof {
            assert(out@ =~= join(after, separator@));
        }
        index = index + 1;
    }
    proof {
        assert(texts(parts@).take(parts@.len() as int) =~= texts(parts@));
    }
    out
}

/// The position of the first `mark` at or after `from`, or the length.
pub open spec fn find_from(text: Seq<char>, mark: char, from: int) -> int
    decreases text.len() - from,
{
    if from < 0 || from >= text.len() {
        text.len() as int
    } else if text[from] == mark {
        from
    } else {
        find_from(text, mark, from + 1)
    }
}

/// The position of the first `mark` at or after `from`, or the length.
pub fn find_char(chars: &Vec<char>, mark: char, from: usize) -> (r: usize)
    requires
        from <= chars@.len(),
    ensures
        r == find_from(chars@, mark, from as int),
        from <= r <= chars@.len(),
{
    let mut index: usize = from;
    while index < chars.len()
        invariant
            from <= index <= chars@.len(),
            find_from(chars@, mark, from as int) == find_from(chars@, mark, index as int),
        decreases chars@.len() - index,
    {
        if chars[index] == mark {
            return index;
        }
        index = index + 1;
    }
    index
}

/// Whether a text begins with `prefix`.
pub fn starts_with(text: &str, prefix: &str) -> (r: bool)
    ensures
        r == prefix@.is_prefix_of(text@),
{
    let whole = chars_of(text);
    let part = chars_of(prefix);
    if part.len() > whole.len() {
        return false;
    }
    let mut index: usize = 0;
    while index < part.len()
        invariant
            index <= part@.len() <= whole@.len(),
            whole@ == text@,
            part@ == prefix@,
            forall|i: int| 0 <= i < index ==> whole@[i] == part@[i],
        decreases part@.len() - index,
    {
        if whole[index] != part[index] {
            proof {
                assert(text@.subrange(0, prefix@.len() as int)[index as int] != prefix@[index as int]);
            }
            return false;
        }
        index = index + 1;
    }
    proof {
        assert(prefix@ =~= text@.subrange(0, prefix@.len() as int));
    }
    true
}

/// Whether a text ends with `suffix`.
pub fn ends_with(text: &str, suffix: &str) -> (r: bool)
    ensures
        r == suffix@.is_suffix_of(text@),
{
    let whole = chars_of(text);
    let part = chars_of(suffix);
    if part.len() > whole.len() {
        return false;
    }
    let start = whole.len() - part.len();
    let mut index: usize = 0;
    while index < part.len()
        invariant
            index <= part@.len() <= whole@.len(),
            start == whole.len() - part.len(),
            whole@ == text@,
            part@ == suffix@,
            forall|i: int| 0 <= i < index ==> whole@[start + i] == part@[i],
        decreases part@.len() - index,
    {
        if whole[start + index] != part[index] {
            proof {
                assert(text@.subrange(start as int, text@.len() as int)[index as int]
                    != suffix@[index as int]);
            }
            return false;
        }
        index = index + 1;
    }
    proof {
        assert(suffix@ =~= text@.subrange(start as int, text@.len() as int));
    }
    true
}

/// What is left of a text behind `prefix`, where it begins with it.
pub open spec fn without_prefix(text: Seq<char>, prefix: Seq<char>) -> Option<Seq<char>> {
    if prefix.is_prefix_of(text) {
        Some(text.skip(prefix.len() as int))
    } else {
        None
    }
}

/// What is left behind a prefix makes up the text together with it; nothing is
/// left only where the text does not begin with it.
pub proof fn lemma_without_prefix(text: Seq<char>, prefix: Seq<char>, rest: Seq<char>)
    ensures
        without_prefix(text, prefix) == Some(rest) <==> text == prefix + rest,
        without_prefix(text, prefix) is None ==> text != prefix + rest,
{
    if text == prefix + rest {
        assert(text.skip(prefix.len() as int) =~= rest);
        assert(prefix.is_prefix_of(text)) by {
            assert(text.subrange(0, prefix.len() as int) =~= prefix);
        }
    }
    if without_prefix(text, prefix) == Some(rest) {
        assert(text =~= prefix + rest);
    }
}

/// The first mark is found: none comes before it, and where there is none the
/// end is given.
pub proof fn lemma_find_from(text: Seq<char>, mark: char, from: int)
    requires
        0 <= from <= text.len(),
    ensures
        from <= find_from(text, mark, from) <= text.len(),
        find_from(text, mark, from) < text.len() ==> text[find_from(text, mark, from)] == mark,
        forall|i: int| from <= i < find_from(text, mark, from) ==> #[trigger] text[i] != mark,
    decreases text.len() - from,
{
    if from < text.len() && text[from] != mark {
        lemma_find_from(text, mark, from + 1);
    }
}

/// What is left of a text behind `prefix`, where it begins with it.
pub fn strip_prefix(text: &str, prefix: &str) -> (r: Option<String>)
    ensures
        r is Some <==> without_prefix(text@, prefix@) is Some,
        r matches Some(rest) ==> without_prefix(text@, prefix@) == Some(rest@),
{
    if starts_with(text, prefix) {
        let whole = chars_of(text);
        let part = chars_of(prefix);
        let rest = text_between(&whole, part.len(), whole.len());
        proof {
            assert(rest@ =~= text@.skip(prefix@.len() as int));
        }
        Some(rest)
    } else {
        None
    }
}

// ---------------------------------------------------------------------------
// Order
// ---------------------------------------------------------------------------

/// Whether `a` comes strictly before `b`, character by character.
pub open spec fn text_before(a: Seq<char>, b: Seq<char>) -> bool
    decreases a.len(),
{
    if b.len() == 0 {
        false
    } else if a.len() == 0 {
        true
    } else if a[0] != b[0] {
        a[0] < b[0]
    } else {
        text_before(a.skip(1), b.skip(1))
    }
}

/// Whether one text comes strictly before another.
pub fn comes_before(a: &str, b: &str) -> (r: bool)
    ensures
        r == text_before(a@, b@),
{
    let left = chars_of(a);
    let right = chars_of(b);
    let mut index: usize = 0;
    proof {
        assert(a@.skip(0) =~= a@);
        assert(b@.skip(0) =~= b@);
    }
    while index < left.len() && index < right.len()
        invariant
            index <= left@.len(),
            index <= right@.len(),
            left@ == a@,
            right@ == b@,
            text_before(a@, b@) == text_before(a@.skip(index as int), b@.skip(index as int)),
        decreases left@.len() - index,
    {
        proof {
            assert(a@.skip(index as int).skip(1) =~= a@.skip(index + 1));
            assert(b@.skip(index as int).skip(1) =~= b@.skip(index + 1));
        }
        let x = left[index];
        let y = right[index];
        if x != y {
            return x < y;
        }
        index = index + 1;
    }
    index < right.len()
}

/// Of two texts, the one with the smaller character at the first place where
/// they differ comes first, and the beginning of a text comes before it.
pub proof fn lemma_text_before(
    common: Seq<char>,
    x: char,
    a: Seq<char>,
    y: char,
    b: Seq<char>,
)
    ensures
        x != y ==> (text_before(common + seq![x] + a, common + seq![y] + b) <==> x < y),
        text_before(common, common + seq![x] + a),
        !text_before(common + seq![x] + a, common),
    decreases common.len(),
{
    let left = common + seq![x] + a;
    let right = common + seq![y] + b;
    if common.len() > 0 {
        let rest = common.skip(1);
        lemma_text_before(rest, x, a, y, b);
        assert(left.skip(1) =~= rest + seq![x] + a);
        assert(right.skip(1) =~= rest + seq![y] + b);
    }
}

// ---------------------------------------------------------------------------
// Blank text
// ---------------------------------------------------------------------------

/// Whether a character has the Unicode property `White_Space`.
pub open spec fn is_white_space(c: char) -> bool {
    let code = c as u32;
    ||| 0x09 <= code <= 0x0D
    ||| code == 0x20
    ||| code == 0x85
    ||| code == 0xA0
    ||| code == 0x1680
    ||| 0x2000 <= code <= 0x200A
    ||| code == 0x2028
    ||| code == 0x2029
    ||| code == 0x202F
    ||| code == 0x205F
    ||| code == 0x3000
}

/// Whether a text is empty or holds nothing but white space.
pub open spec fn is_blank(text: Seq<char>) -> bool {
    forall|i: int| 0 <= i < text.len() ==> is_white_space(text[i])
}

/// The characters that leave a text blank, one by one.
pub proof fn lemma_white_space(c: char)
    ensures
        is_white_space(c) <==> (c == '\u{9}' || c == '\u{A}' || c == '\u{B}' || c == '\u{C}' || c
            == '\u{D}' || c == ' ' || c == '\u{85}' || c == '\u{A0}' || c == '\u{1680}' || c
            == '\u{2000}' || c == '\u{2001}' || c == '\u{2002}' || c == '\u{2003}' || c
            == '\u{2004}' || c == '\u{2005}' || c == '\u{2006}' || c == '\u{2007}' || c
            == '\u{2008}' || c == '\u{2009}' || c == '\u{200A}' || c == '\u{2028}' || c
            == '\u{2029}' || c == '\u{202F}' || c == '\u{205F}' || c == '\u{3000}'),
{
}

/// A text is blank exactly where no character of it can be seen.
pub proof fn lemma_blank(text: Seq<char>, at: int)
    ensures
        text.len() == 0 ==> is_blank(text),
        0 <= at < text.len() && !is_white_space(text[at]) ==> !is_blank(text),
        (forall|i: int| 0 <= i < text.len() ==> #[trigger] text[i] == ' ') ==> is_blank(text),
{
    if forall|i: int| 0 <= i < text.len() ==> #[trigger] text[i] == ' ' {
        assert forall|i: int| 0 <= i < text.len() implies is_white_space(text[i]) by {
            assert(text[i] == ' ');
        }
    }
}

fn white_space(c: char) -> (r: bool)
    ensures
        r == is_white_space(c),
{
    let code: u32 = c as u32;
    (0x09 <= code && code <= 0x0D) || code == 0x20 || code == 0x85 || code == 0xA0 || code == 0x1680
        || (0x2000 <= code && code <= 0x200A) || code == 0x2028 || code == 0x2029 || code == 0x202F
        || code == 0x205F || code == 0x3000
}

/// Whether a text is empty or holds nothing but white space.
pub fn blank(text: &str) -> (r: bool)
    ensures
        r == is_blank(text@),
{
    let chars = chars_of(text);
    let mut index: usize = 0;
    while index < chars.len()
        invariant
            index <= chars@.len(),
            chars@ == text@,
            forall|i: int| 0 <= i < index ==> is_white_space(text@[i]),
        decreases chars@.len() - index,
    {
        if !white_space(chars[index]) {
            return false;
        }
        index = index + 1;
    }
    true
}

// ---------------------------------------------------------------------------
// UTF-16
// ---------------------------------------------------------------------------

/// Whether a unit is the first half of a surrogate pair.
pub open spec fn is_high_surrogate(unit: u16) -> bool {
    0xD800 <= unit && unit <= 0xDBFF
}

/// Whether a unit is the second half of a surrogate pair.
pub open spec fn is_low_surrogate(unit: u16) -> bool {
    0xDC00 <= unit && unit <= 0xDFFF
}

/// The text that UTF-16 units stand for, with `U+FFFD` for each unpaired
/// surrogate.
pub open spec fn decode_utf16(units: Seq<u16>) -> Seq<char>
    decreases units.len(),
{
    if units.len() == 0 {
        Seq::empty()
    } else if !is_high_surrogate(units[0]) && !is_low_surrogate(units[0]) {
        seq![(units[0] as u32) as char] + decode_utf16(units.skip(1))
    } else if is_high_surrogate(units[0]) && units.len() > 1 && is_low_surrogate(units[1]) {
        seq![
            (0x10000 + (units[0] - 0xD800) * 0x400 + (units[1] - 0xDC00)) as u32 as char,
        ] + decode_utf16(units.skip(2))
    } else {
        seq!['\u{FFFD}'] + decode_utf16(units.skip(1))
    }
}

fn char_of_code(code: u32) -> (c: char)
    requires
        is_scalar(code),
    ensures
        c == code as char,
{
    match char::from_u32(code) {
        Some(c) => {
            proof {
                vstd::utf8::char_u32_cast(c, code);
            }
            c
        },
        None => '\u{FFFD}',
    }
}

/// Decodes UTF-16, with `U+FFFD` for each unpaired surrogate.
pub fn utf16_text(units: &Vec<u16>) -> (r: String)
    ensures
        r@ == decode_utf16(units@),
{
    let mut out = String::new();
    let mut index: usize = 0;
    proof {
        assert(units@.skip(0) =~= units@);
    }
    while index < units.len()
        invariant
            index <= units@.len(),
            out@ + decode_utf16(units@.skip(index as int)) == decode_utf16(units@),
        decreases units@.len() - index,
    {
        let first = units[index];
        let ghost rest = units@.skip(index as int);
        let ghost before = out@;
        proof {
            assert(rest[0] == first);
            assert(rest.skip(1) =~= units@.skip(index + 1));
        }
        if !(0xD800 <= first && first <= 0xDFFF) {
            out.push(char_of_code(first as u32));
            proof {
                assert(out@ + decode_utf16(units@.skip(index + 1)) =~= before + decode_utf16(rest));
            }
            index = index + 1;
        } else if first <= 0xDBFF && units.len() - index > 1 && 0xDC00 <= units[index + 1] && units[index
            + 1] <= 0xDFFF {
            let second = units[index + 1];
            let code: u32 = 0x10000 + (first as u32 - 0xD800) * 0x400 + (second as u32 - 0xDC00);
            proof {
                assert(rest[1] == second);
                assert(rest.skip(2) =~= units@.skip(index + 2));
            }
            out.push(char_of_code(code));
            proof {
                assert(out@ + decode_utf16(units@.skip(index + 2)) =~= before + decode_utf16(rest));
            }
            index = index + 2;
        } else {
            proof {
                assert(rest.len() > 1 ==> rest[1] == units@[index + 1]);
            }
            out.push('\u{FFFD}');
            proof {
                assert(out@ + decode_utf16(units@.skip(index + 1)) =~= before + decode_utf16(rest));
            }
            index = index + 1;
        }
    }
    proof {
        assert(units@.skip(units@.len() as int) =~= Seq::empty());
        assert(out@ + Seq::<char>::empty() =~= out@);
    }
    out
}

/// The UTF-16 units of one character.
pub open spec fn utf16_units(c: char) -> Seq<u16> {
    let code = c as u32;
    if code < 0x10000 {
        seq![code as u16]
    } else {
        seq![
            (0xD800 + (code - 0x10000) / 0x400) as u16,
            (0xDC00 + (code - 0x10000) % 0x400) as u16,
        ]
    }
}

/// The UTF-16 units of a text.
pub open spec fn encode_utf16(text: Seq<char>) -> Seq<u16>
    decreases text.len(),
{
    if text.len() == 0 {
        Seq::empty()
    } else {
        encode_utf16(text.drop_last()) + utf16_units(text.last())
    }
}

proof fn lemma_encode_front(text: Seq<char>)
    requires
        text.len() > 0,
    ensures
        encode_utf16(text) == utf16_units(text[0]) + encode_utf16(text.skip(1)),
    decreases text.len(),
{
    let front = text.drop_last();
    let rest = text.skip(1);
    if text.len() == 1 {
        assert(front =~= Seq::empty());
        assert(rest =~= Seq::empty());
        assert(encode_utf16(text) =~= utf16_units(text[0]) + encode_utf16(rest));
    } else {
        lemma_encode_front(front);
        assert(front.skip(1) =~= rest.drop_last());
        assert(encode_utf16(text) =~= utf16_units(text[0]) + encode_utf16(rest));
    }
}

proof fn lemma_decode_units(c: char, rest: Seq<u16>)
    ensures
        decode_utf16(utf16_units(c) + rest) == seq![c] + decode_utf16(rest),
{
    vstd::utf8::char_is_scalar(c);
    let code = c as u32;
    let units = utf16_units(c) + rest;
    if code < 0x10000 {
        assert(units[0] == code as u16);
        assert(code as u16 == code);
        assert(units[0] as u32 == code);
        vstd::utf8::char_u32_cast(c, units[0] as u32);
        assert(units.skip(1) =~= rest);
    } else {
        let high = (code - 0x10000) / 0x400;
        let low = (code - 0x10000) % 0x400;
        assert(0 <= high < 0x400 && 0 <= low < 0x400);
        assert(units[0] == 0xD800 + high);
        assert(units[1] == 0xDC00 + low);
        assert(0x10000 + (units[0] - 0xD800) * 0x400 + (units[1] - 0xDC00) == code);
        vstd::utf8::char_u32_cast(c, code);
        assert(units.skip(2) =~= rest);
    }
}

/// What was encoded in UTF-16 decodes to the same text.
pub proof fn lemma_utf16_reads_back(text: Seq<char>)
    ensures
        decode_utf16(encode_utf16(text)) == text,
    decreases text.len(),
{
    if text.len() > 0 {
        let rest = text.skip(1);
        lemma_encode_front(text);
        lemma_utf16_reads_back(rest);
        lemma_decode_units(text[0], encode_utf16(rest));
        assert(seq![text[0]] + rest =~= text);
    } else {
        assert(decode_utf16(encode_utf16(text)) =~= text);
    }
}

/// Half a surrogate pair on its own reads as the replacement character, and
/// what follows it is read as if it were not there.
pub proof fn lemma_lone_surrogate(unit: u16, rest: Seq<u16>)
    requires
        0xD800 <= unit <= 0xDFFF,
        unit >= 0xDC00 || rest.len() == 0 || rest[0] < 0xDC00 || rest[0] > 0xDFFF,
    ensures
        decode_utf16(seq![unit] + rest) == seq!['\u{FFFD}'] + decode_utf16(rest),
{
    let units = seq![unit] + rest;
    assert(units.skip(1) =~= rest);
}

/// Encodes a text in UTF-16.
pub fn utf16_of(text: &str) -> (r: Vec<u16>)
    ensures
        r@ == encode_utf16(text@),
{
    let mut out: Vec<u16> = Vec::new();
    for c in it: text.chars()
        invariant
            it.seq() == text@,
            out@ == encode_utf16(text@.take(it.index())),
    {
        let ghost done = text@.take(it.index() + 1);
        proof {
            assert(done.drop_last() =~= text@.take(it.index()));
            assert(done.last() == c);
        }
        let code: u32 = c as u32;
        if code < 0x10000 {
            out.push(code as u16);
        } else {
            out.push((0xD800 + (code - 0x10000) / 0x400) as u16);
            out.push((0xDC00 + (code - 0x10000) % 0x400) as u16);
        }
        proof {
            assert(out@ =~= encode_utf16(done));
        }
    }
    proof {
        assert(text@.take(text@.len() as int) =~= text@);
    }
    out
}

} // verus!
