//! Text as sequences of characters: numerals, searching, splitting, joining.
use vstd::prelude::*;

verus! {

/// `String::push` appends one character.
pub assume_specification[ String::push ](s: &mut String, c: char)
    ensures
        final(s)@ == old(s)@.push(c),
;

/// The character that stands for the digit `d` (below 16) in a numeral.
pub open spec fn digit_char(d: nat) -> char {
    if d < 10 {
        ('0' as nat + d) as char
    } else {
        ('a' as nat + d - 10) as char
    }
}

/// The numeral of `n` in `base`, most significant digit first, without leading zeros.
pub open spec fn numeral(n: nat, base: nat) -> Seq<char>
    decreases n,
{
    if base < 2 {
        Seq::empty()
    } else if n < base {
        seq![digit_char(n)]
    } else {
        proof {
            assert(n / base < n) by (nonlinear_arith)
                requires
                    n >= base,
                    base >= 2,
            ;
        }
        numeral(n / base, base).push(digit_char(n % base))
    }
}

/// The decimal numeral of `n`.
pub open spec fn decimal(n: nat) -> Seq<char> {
    numeral(n, 10)
}

pub open spec fn is_digit(c: char) -> bool {
    '0' <= c <= '9'
}

/// The number that a run of decimal digits stands for.
pub open spec fn digits_value(s: Seq<char>) -> nat
    decreases s.len(),
{
    if s.len() == 0 {
        0
    } else {
        digits_value(s.drop_last()) * 10 + (s.last() as nat - '0' as nat) as nat
    }
}

/// A text without the plus sign that an unsigned number may start with.
pub open spec fn unsigned_body(s: Seq<char>) -> Seq<char> {
    if s.len() > 0 && s[0] == '+' {
        s.skip(1)
    } else {
        s
    }
}

/// The number that a text stands for: an optional plus sign, then one or more
/// decimal digits, and nothing above `u64::MAX`.
pub open spec fn parsed_u64(s: Seq<char>) -> Option<u64> {
    let body = unsigned_body(s);
    if body.len() > 0 && (forall|i: int| 0 <= i < body.len() ==> is_digit(#[trigger] body[i]))
        && digits_value(body) <= u64::MAX {
        Some(digits_value(body) as u64)
    } else {
        None
    }
}

/// The pieces of `s` between the occurrences of `sep`: one more than there are
/// occurrences, and possibly empty ones.
pub open spec fn split_on(s: Seq<char>, sep: char) -> Seq<Seq<char>>
    decreases s.len(),
{
    if s.len() == 0 {
        seq![Seq::empty()]
    } else {
        let init = split_on(s.drop_last(), sep);
        if s.last() == sep {
            init.push(Seq::empty())
        } else {
            init.drop_last().push(init.last().push(s.last()))
        }
    }
}

/// The texts one after the other with `sep` between each two.
pub open spec fn joined(parts: Seq<Seq<char>>, sep: Seq<char>) -> Seq<char>
    decreases parts.len(),
{
    if parts.len() == 0 {
        Seq::empty()
    } else if parts.len() == 1 {
        parts[0]
    } else {
        joined(parts.drop_last(), sep) + sep + parts.last()
    }
}

/// `part` occurs in `s` at `at`.
pub open spec fn occurs_at(s: Seq<char>, part: Seq<char>, at: int) -> bool {
    0 <= at && at + part.len() <= s.len() && s.subrange(at, at + part.len()) == part
}

pub open spec fn contains_text(s: Seq<char>, part: Seq<char>) -> bool {
    exists|at: int| occurs_at(s, part, at)
}

pub open spec fn starts_with_text(s: Seq<char>, part: Seq<char>) -> bool {
    occurs_at(s, part, 0)
}

pub open spec fn ends_with_text(s: Seq<char>, part: Seq<char>) -> bool {
    occurs_at(s, part, s.len() - part.len())
}

/// The views of a list of strings.
pub open spec fn texts(v: Seq<String>) -> Seq<Seq<char>> {
    v.map_values(|s: String| s@)
}

/// The characters of a string.
pub fn chars_of(s: &str) -> (r: Vec<char>)
    ensures
        r@ == s@,
{
    let mut out: Vec<char> = Vec::new();
    for c in it: s.chars()
        invariant
            out@ == it.seq().take(it.index() as int),
            it.seq() == s@,
    {
        out.push(c);
    }
    out
}

/// The string with these characters.
pub fn string_of(chars: &[char]) -> (r: String)
    ensures
        r@ == chars@,
{
    let mut out = String::new();
    for i in 0..chars.len()
        invariant
            out@ == chars@.take(i as int),
    {
        out.push(chars[i]);
        assert(chars@.take(i + 1) == chars@.take(i as int).push(chars@[i as int]));
    }
    assert(chars@.take(chars@.len() as int) == chars@);
    out
}

/// `str` equality compares the characters.
pub assume_specification[ <str as PartialEq<str>>::eq ](a: &str, b: &str) -> (r: bool)
    ensures
        r == (a@ == b@),
;

/// Whether two texts have the same characters.
pub fn same_text(a: &str, b: &str) -> (r: bool)
    ensures
        r == (a@ == b@),
{
    a.eq(b)
}

/// The digit `d` as a character.
fn digit(d: u32) -> (r: char)
    requires
        d < 16,
    ensures
        r == digit_char(d as nat),
{
    match d {
        0 => '0',
        1 => '1',
        2 => '2',
        3 => '3',
        4 => '4',
        5 => '5',
        6 => '6',
        7 => '7',
        8 => '8',
        9 => '9',
        10 => 'a',
        11 => 'b',
        12 => 'c',
        13 => 'd',
        14 => 'e',
        _ => 'f',
    }
}

/// The numeral of `n` in `base`.
pub fn numeral_text(n: u128, base: u32) -> (r: String)
    requires
        2 <= base <= 16,
    ensures
        r@ == numeral(n as nat, base as nat),
    decreases n,
{
    if n < base as u128 {
        let mut out = String::new();
        out.push(digit(n as u32));
        assert(out@ == seq![digit_char(n as nat)]);
        out
    } else {
        assert(n / (base as u128) < n) by (nonlinear_arith)
            requires
                n >= base as u128,
                base >= 2,
        ;
        let mut out = numeral_text(n / (base as u128), base);
        out.push(digit((n % (base as u128)) as u32));
        out
    }
}

/// The decimal numeral of `n`, as `u64::to_string` writes it.
pub fn decimal_text(n: u64) -> (r: String)
    ensures
        r@ == decimal(n as nat),
{
    numeral_text(n as u128, 10)
}

/// Reads an unsigned number as `str::parse::<u64>` does.
pub fn parse_u64(s: &str) -> (r: Option<u64>)
    ensures
        r == parsed_u64(s@),
{
    let chars = chars_of(s);
    let start: usize = if chars.len() > 0 && chars[0] == '+' { 1 } else { 0 };
    let ghost body = unsigned_body(s@);
    assert(body == chars@.skip(start as int));
    if chars.len() == start {
        return None;
    }
    let mut value: u64 = 0;
    let mut fits: bool = true;
    for i in start..chars.len()
        invariant
            start <= chars@.len(),
            body == unsigned_body(s@),
            body == chars@.skip(start as int),
            forall|j: int| 0 <= j < i - start ==> is_digit(#[trigger] body[j]),
            fits ==> value == digits_value(body.take(i - start)),
            !fits ==> digits_value(body.take(i - start)) > u64::MAX,
    {
        let c = chars[i];
        let ghost k = i - start;
        assert(body[k] == c);
        if c < '0' || c > '9' {
            assert(!is_digit(body[k]));
            return None;
        }
        assert(body.take(k + 1).drop_last() == body.take(k));
        let d: u64 = (c as u32 - '0' as u32) as u64;
        if fits {
            if value > (u64::MAX - d) / 10 {
                assert(value * 10 + d > u64::MAX);
                fits = false;
            } else {
                value = value * 10 + d;
            }
        }
    }
    assert(body.take(body.len() as int) == body);
    if fits {
        Some(value)
    } else {
        None
    }
}

/// Cuts a text at every `sep`.
pub fn split(s: &str, sep: char) -> (r: Vec<String>)
    ensures
        texts(r@) == split_on(s@, sep),
{
    let chars = chars_of(s);
    let mut parts: Vec<String> = Vec::new();
    let mut current = String::new();
    assert(texts(parts@).push(current@) == split_on(s@.take(0), sep));
    for i in 0..chars.len()
        invariant
            chars@ == s@,
            texts(parts@).push(current@) == split_on(s@.take(i as int), sep),
    {
        let c = chars[i];
        assert(s@.take(i + 1).drop_last() == s@.take(i as int));
        let ghost before = texts(parts@).push(current@);
        assert(before.drop_last() == texts(parts@));
        if c == sep {
            let ghost old_parts = texts(parts@);
            let ghost piece = current@;
            parts.push(current);
            current = String::new();
            assert(texts(parts@) == old_parts.push(piece));
        } else {
            current.push(c);
        }
    }
    assert(s@.take(s@.len() as int) == s@);
    let ghost old_parts = texts(parts@);
    let ghost piece = current@;
    parts.push(current);
    assert(texts(parts@) == old_parts.push(piece));
    parts
}

/// The texts one after the other with `sep` between each two.
pub fn join(parts: &[String], sep: &str) -> (r: String)
    ensures
        r@ == joined(texts(parts@), sep@),
{
    let mut out = String::new();
    for i in 0..parts.len()
        invariant
            out@ == joined(texts(parts@).take(i as int), sep@),
    {
        let ghost done = texts(parts@).take(i + 1);
        assert(done.drop_last() == texts(parts@).take(i as int));
        assert(done.last() == parts@[i as int]@);
        if i > 0 {
            out.append(sep);
        }
        out.append(parts[i].as_str());
        if i == 0 {
            assert(out@ == parts@[0]@);
        }
    }
    assert(texts(parts@).take(parts@.len() as int) == texts(parts@));
    out
}

/// Whether `part` occurs in `s` at the character index `at`.
fn found_at(s: &Vec<char>, part: &Vec<char>, at: usize) -> (r: bool)
    requires
        at + part@.len() <= s.len(),
    ensures
        r == occurs_at(s@, part@, at as int),
{
    for i in 0..part.len()
        invariant
            at + part@.len() <= s.len(),
            forall|j: int| 0 <= j < i ==> s@[at + j] == part@[j],
    {
        if s[at + i] != part[i] {
            assert(s@.subrange(at as int, at + part@.len())[i as int] != part@[i as int]);
            return false;
        }
    }
    assert(s@.subrange(at as int, at + part@.len()) == part@);
    true
}

/// Whether `s` begins with `part`.
pub fn starts_with(s: &str, part: &str) -> (r: bool)
    ensures
        r == starts_with_text(s@, part@),
{
    let s_chars = chars_of(s);
    let part_chars = chars_of(part);
    part_chars.len() <= s_chars.len() && found_at(&s_chars, &part_chars, 0)
}

/// Whether `s` ends with `part`.
pub fn ends_with(s: &str, part: &str) -> (r: bool)
    ensures
        r == ends_with_text(s@, part@),
{
    let s_chars = chars_of(s);
    let part_chars = chars_of(part);
    part_chars.len() <= s_chars.len() && found_at(
        &s_chars,
        &part_chars,
        s_chars.len() - part_chars.len(),
    )
}

/// Whether `part` occurs anywhere in `s`.
pub fn contains(s: &str, part: &str) -> (r: bool)
    ensures
        r == contains_text(s@, part@),
{
    let s_chars = chars_of(s);
    let part_chars = chars_of(part);
    if part_chars.len() > s_chars.len() {
        return false;
    }
    let last: usize = s_chars.len() - part_chars.len();
    let mut at: usize = 0;
    while at <= last
        invariant
            s_chars@ == s@,
            part_chars@ == part@,
            last + part@.len() == s@.len(),
            at <= last + 1,
            forall|k: int| 0 <= k < at ==> !occurs_at(s@, part@, k),
        decreases last + 1 - at,
    {
        if found_at(&s_chars, &part_chars, at) {
            return true;
        }
        if at == last {
            assert forall|k: int| !occurs_at(s@, part@, k) by {
                if k == last {
                } else if k < last {
                }
            }
            return false;
        }
        at += 1;
    }
    false
}

/// Whether `c` occurs in `s`.
pub fn has_char(s: &str, c: char) -> (r: bool)
    ensures
        r == s@.contains(c),
{
    let chars = chars_of(s);
    for i in 0..chars.len()
        invariant
            chars@ == s@,
            forall|j: int| 0 <= j < i ==> s@[j] != c,
    {
        if chars[i] == c {
            assert(s@[i as int] == c);
            return true;
        }
    }
    false
}

/// A numeral is made of one or more decimal digits that stand for the number.
pub proof fn decimal_is_digits(n: nat)
    ensures
        decimal(n).len() > 0,
        forall|i: int| 0 <= i < decimal(n).len() ==> is_digit(#[trigger] decimal(n)[i]),
        digits_value(decimal(n)) == n,
    decreases n,
{
    if n < 10 {
        assert(decimal(n).drop_last() == Seq::<char>::empty());
        assert(digits_value(Seq::<char>::empty()) == 0);
    } else {
        decimal_is_digits(n / 10);
        assert(decimal(n).drop_last() == decimal(n / 10));
    }
}

/// Reading a number back from its numeral gives the number.
pub proof fn decimal_reads_back(n: u64)
    ensures
        parsed_u64(decimal(n as nat)) == Some(n),
{
    decimal_is_digits(n as nat);
    assert(is_digit(decimal(n as nat)[0]));
}

/// Different numbers have different numerals.
pub proof fn numerals_differ(a: nat, b: nat, base: nat)
    requires
        2 <= base <= 16,
        a != b,
    ensures
        numeral(a, base) != numeral(b, base),
    decreases a,
{
    numeral_not_empty(a / base, base);
    numeral_not_empty(b / base, base);
    if a < base && b < base {
        assert(numeral(a, base)[0] == digit_char(a));
        assert(numeral(b, base)[0] == digit_char(b));
    } else if a >= base && b >= base {
        if numeral(a, base) == numeral(b, base) {
            assert(numeral(a, base).drop_last() == numeral(a / base, base));
            assert(numeral(b, base).drop_last() == numeral(b / base, base));
            assert(numeral(a, base).last() == digit_char(a % base));
            assert(numeral(b, base).last() == digit_char(b % base));
            assert(a / base < a && a % base < base && b % base < base && a == (a / base) * base + a
                % base && b == (b / base) * base + b % base) by (nonlinear_arith)
                requires
                    a >= base,
                    base >= 2,
            ;
            if a / base != b / base {
                numerals_differ(a / base, b / base, base);
            }
        }
    } else if a < base {
        assert(numeral(a, base).len() == 1);
        assert(numeral(b, base).len() == numeral(b / base, base).len() + 1);
    } else {
        assert(numeral(b, base).len() == 1);
        assert(numeral(a, base).len() == numeral(a / base, base).len() + 1);
    }
}

proof fn numeral_not_empty(n: nat, base: nat)
    requires
        base >= 2,
    ensures
        numeral(n, base).len() > 0,
{
}

/// A text without `sep` is its own only piece.
pub proof fn split_without_separator(s: Seq<char>, sep: char)
    requires
        !s.contains(sep),
    ensures
        split_on(s, sep) == seq![s],
    decreases s.len(),
{
    if s.len() > 0 {
        assert forall|i: int| 0 <= i < s.drop_last().len() implies s.drop_last()[i] != sep by {
            assert(s[i] != sep);
        }
        split_without_separator(s.drop_last(), sep);
        assert(s.last() != sep);
        assert(s.drop_last().push(s.last()) == s);
        assert(split_on(s, sep) == seq![s]);
    } else {
        assert(s == Seq::<char>::empty());
    }
}

/// Cutting `a`, a separator and `b` gives the pieces of `a`, then those of `b`.
proof fn split_at_separator(a: Seq<char>, b: Seq<char>, sep: char)
    ensures
        split_on(a + seq![sep] + b, sep) == split_on(a, sep) + split_on(b, sep),
    decreases b.len(),
{
    let whole = a + seq![sep] + b;
    split_not_empty(b, sep);
    if b.len() == 0 {
        assert(whole.drop_last() == a);
        assert(split_on(whole, sep) == split_on(a, sep).push(Seq::empty()));
    } else {
        let rest = a + seq![sep] + b.drop_last();
        assert(whole.drop_last() == rest);
        assert(whole.last() == b.last());
        split_at_separator(a, b.drop_last(), sep);
        split_not_empty(b.drop_last(), sep);
        let left = split_on(a, sep);
        let right = split_on(b.drop_last(), sep);
        assert((left + right).drop_last() == left + right.drop_last());
        assert((left + right).last() == right.last());
        assert(split_on(whole, sep) == left + split_on(b, sep));
    }
}

proof fn split_not_empty(s: Seq<char>, sep: char)
    ensures
        split_on(s, sep).len() > 0,
    decreases s.len(),
{
    if s.len() > 0 {
        split_not_empty(s.drop_last(), sep);
    }
}

/// Cutting a joined list at the separator gives the list back, where the list
/// is not empty and none of its texts holds the separator.
pub proof fn split_undoes_join(parts: Seq<Seq<char>>, sep: char)
    requires
        parts.len() > 0,
        forall|i: int| 0 <= i < parts.len() ==> !(#[trigger] parts[i]).contains(sep),
    ensures
        split_on(joined(parts, seq![sep]), sep) == parts,
    decreases parts.len(),
{
    if parts.len() == 1 {
        split_without_separator(parts[0], sep);
        assert(seq![parts[0]] == parts);
    } else {
        let init = parts.drop_last();
        assert forall|i: int| 0 <= i < init.len() implies !(#[trigger] init[i]).contains(sep) by {
            assert(init[i] == parts[i]);
        }
        split_undoes_join(init, sep);
        split_without_separator(parts.last(), sep);
        split_at_separator(joined(init, seq![sep]), parts.last(), sep);
        assert(init + seq![parts.last()] == parts);
    }
}

/// Dictionary order by character code.
pub open spec fn text_before(a: Seq<char>, b: Seq<char>) -> bool
    decreases a.len(),
{
    if b.len() == 0 {
        false
    } else if a.len() == 0 {
        true
    } else if a[0] != b[0] {
        a[0] < b[0]
    } else {
        text_before(a.drop_first(), b.drop_first())
    }
}

/// No text comes before itself.
pub proof fn text_before_itself(a: Seq<char>)
    ensures
        !text_before(a, a),
    decreases a.len(),
{
    if a.len() > 0 {
        text_before_itself(a.drop_first());
    }
}

/// Dictionary order is transitive.
pub proof fn text_before_chain(a: Seq<char>, b: Seq<char>, c: Seq<char>)
    requires
        text_before(a, b),
        text_before(b, c),
    ensures
        text_before(a, c),
    decreases a.len(),
{
    if a.len() > 0 && a[0] == b[0] && b[0] == c[0] {
        text_before_chain(a.drop_first(), b.drop_first(), c.drop_first());
    }
}

/// Of two different texts one comes before the other.
pub proof fn text_before_either(a: Seq<char>, b: Seq<char>)
    ensures
        a == b || text_before(a, b) || text_before(b, a),
    decreases a.len(),
{
    if a.len() > 0 && b.len() > 0 && a[0] == b[0] {
        text_before_either(a.drop_first(), b.drop_first());
        if a.drop_first() == b.drop_first() {
            assert(a == seq![a[0]] + a.drop_first());
            assert(b == seq![b[0]] + b.drop_first());
        }
    } else if a.len() == 0 && b.len() == 0 {
        assert(a == b);
    }
}

/// Whether `a` comes before `b` in dictionary order.
pub fn comes_before(a: &str, b: &str) -> (r: bool)
    ensures
        r == text_before(a@, b@),
{
    let a_chars = chars_of(a);
    let b_chars = chars_of(b);
    let mut i: usize = 0;
    assert(a@.skip(0) == a@);
    assert(b@.skip(0) == b@);
    while i < a_chars.len() && i < b_chars.len()
        invariant
            a_chars@ == a@,
            b_chars@ == b@,
            i <= a_chars.len(),
            i <= b_chars.len(),
            text_before(a@, b@) == text_before(a@.skip(i as int), b@.skip(i as int)),
        decreases a_chars.len() - i,
    {
        if a_chars[i] != b_chars[i] {
            return a_chars[i] < b_chars[i];
        }
        assert(a@.skip(i as int).drop_first() == a@.skip(i + 1));
        assert(b@.skip(i as int).drop_first() == b@.skip(i + 1));
        i += 1;
    }
    i < b_chars.len()
}

/// A letter or digit of ASCII.
pub open spec fn is_ascii_alphanumeric(c: char) -> bool {
    ('a' <= c <= 'z') || ('A' <= c <= 'Z') || ('0' <= c <= '9')
}

/// Whether `c` is a letter or digit of ASCII.
pub fn ascii_alphanumeric(c: char) -> (r: bool)
    ensures
        r == is_ascii_alphanumeric(c),
{
    (c >= 'a' && c <= 'z') || (c >= 'A' && c <= 'Z') || (c >= '0' && c <= '9')
}

/// The bytes that a character takes in UTF-8.
pub open spec fn char_bytes(c: char) -> nat {
    if c as u32 <= 0x7f {
        1
    } else if c as u32 <= 0x7ff {
        2
    } else if c as u32 <= 0xffff {
        3
    } else {
        4
    }
}

/// The bytes that a text takes in UTF-8.
pub open spec fn byte_len(s: Seq<char>) -> nat
    decreases s.len(),
{
    if s.len() == 0 {
        0
    } else {
        byte_len(s.drop_last()) + char_bytes(s.last())
    }
}

/// Whether a text takes more than so many bytes in UTF-8.
pub fn longer_than(s: &str, limit: usize) -> (r: bool)
    ensures
        r == (byte_len(s@) > limit),
{
    let chars = chars_of(s);
    let mut left: usize = limit;
    for i in 0..chars.len()
        invariant
            chars@ == s@,
            byte_len(s@.take(i as int)) + left == limit,
    {
        assert(s@.take(i + 1).drop_last() =~= s@.take(i as int));
        let c = chars[i] as u32;
        let bytes: usize = if c <= 0x7f {
            1
        } else if c <= 0x7ff {
            2
        } else if c <= 0xffff {
            3
        } else {
            4
        };
        if bytes > left {
            proof {
                byte_len_grows(s@, i + 1);
            }
            return true;
        }
        left = left - bytes;
    }
    assert(s@.take(s@.len() as int) =~= s@);
    false
}

proof fn byte_len_grows(s: Seq<char>, n: int)
    requires
        0 <= n <= s.len(),
    ensures
        byte_len(s.take(n)) <= byte_len(s),
    decreases s.len() - n,
{
    if n == s.len() {
        assert(s.take(n) =~= s);
    } else {
        byte_len_grows(s, n + 1);
        assert(s.take(n + 1).drop_last() =~= s.take(n));
    }
}

/// Joining undoes splitting: no character is lost, and no part holds the separator.
pub proof fn join_undoes_split(s: Seq<char>, sep: char)
    ensures
        split_on(s, sep).len() > 0,
        joined(split_on(s, sep), seq![sep]) == s,
        forall|i: int|
            0 <= i < split_on(s, sep).len() ==> !(#[trigger] split_on(s, sep)[i]).contains(sep),
    decreases s.len(),
{
    let parts = split_on(s, sep);
    if s.len() == 0 {
        assert(parts[0] =~= s);
    } else {
        let init = s.drop_last();
        let before = split_on(init, sep);
        join_undoes_split(init, sep);
        assert(init.push(s.last()) =~= s);
        if s.last() == sep {
            assert(parts.drop_last() =~= before);
            assert(joined(parts, seq![sep]) =~= joined(before, seq![sep]) + seq![sep]
                + Seq::<char>::empty());
            assert(joined(parts, seq![sep]) =~= s);
        } else {
            let grown = before.last().push(s.last());
            assert(parts.drop_last() =~= before.drop_last());
            if before.len() == 1 {
                assert(joined(before, seq![sep]) == before[0]);
                assert(joined(parts, seq![sep]) =~= s);
            } else {
                assert(joined(before, seq![sep]) == joined(before.drop_last(), seq![sep])
                    + seq![sep] + before.last());
                assert(joined(parts, seq![sep]) =~= joined(before, seq![sep]).push(s.last()));
            }
            assert forall|i: int| 0 <= i < parts.len() implies !(#[trigger] parts[i]).contains(
                sep,
            ) by {
                if i < before.len() - 1 {
                    assert(parts[i] == before[i]);
                } else {
                    assert(parts[i] == grown);
                    assert(!before[before.len() - 1].contains(sep));
                    if grown.contains(sep) {
                        let k = choose|k: int| 0 <= k < grown.len() && grown[k] == sep;
                        if k < before.last().len() {
                            assert(before.last()[k] == sep);
                        }
                    }
                }
            }
        }
    }
}

/// Only digits are read as a number, with at most a plus sign before them: a text with
/// any other character is none, and neither is one without digits.
pub proof fn only_digits_are_numbers(s: Seq<char>, i: int)
    requires
        0 <= i < s.len(),
        !('0' <= s[i] <= '9'),
        i > 0 || s[0] != '+',
    ensures
        parsed_u64(s) is None,
        parsed_u64(Seq::empty()) is None,
        parsed_u64(seq!['+']) is None,
{
    let body = unsigned_body(s);
    if s[0] == '+' {
        assert(body[i - 1] == s[i]);
    } else {
        assert(body[i] == s[i]);
    }
    assert(unsigned_body(seq!['+']).len() == 0);
}

/// A text holds another exactly where it can be cut before and behind it, and starts or
/// ends with it where nothing is cut off there.
pub proof fn parts_can_be_cut_out(s: Seq<char>, part: Seq<char>, a: Seq<char>, b: Seq<char>)
    ensures
        contains_text(a + part + b, part),
        starts_with_text(part + b, part),
        ends_with_text(a + part, part),
        starts_with_text(s, part) ==> part + s.skip(part.len() as int) == s,
        ends_with_text(s, part) ==> s.take(s.len() - part.len()) + part == s,
        contains_text(s, part) ==> exists|at: int|
            0 <= at <= s.len() - part.len() && s.take(at) + part + #[trigger] s.skip(
                at + part.len(),
            ) == s,
{
    let whole = a + part + b;
    assert(whole.subrange(a.len() as int, (a.len() + part.len()) as int) =~= part);
    assert(occurs_at(whole, part, a.len() as int));
    assert((part + b).subrange(0, part.len() as int) =~= part);
    let end = a + part;
    assert(end.subrange(end.len() - part.len(), end.len() as int) =~= part);
    if starts_with_text(s, part) {
        cut_out(s, part, 0);
        assert(s.take(0) + part + s.skip(part.len() as int) =~= part + s.skip(part.len() as int));
    }
    if ends_with_text(s, part) {
        cut_out(s, part, s.len() - part.len());
        assert(s.take(s.len() - part.len()) + part + s.skip(s.len() as int) =~= s.take(
            s.len() - part.len(),
        ) + part);
    }
    if contains_text(s, part) {
        let at = choose|at: int| occurs_at(s, part, at);
        cut_out(s, part, at);
    }
}

proof fn cut_out(s: Seq<char>, part: Seq<char>, at: int)
    requires
        occurs_at(s, part, at),
    ensures
        s.take(at) + part + s.skip(at + part.len()) == s,
{
    let found = s.subrange(at, at + part.len());
    assert forall|i: int| 0 <= i < part.len() implies part[i] == s[at + i] by {
        assert(found[i] == part[i]);
    }
    assert(s.take(at) + part + s.skip(at + part.len()) =~= s);
}

/// A longer text comes behind what it starts with, and else the first character that
/// differs decides.
pub proof fn the_first_difference_decides(
    start: Seq<char>,
    a: char,
    b: char,
    c: Seq<char>,
    d: Seq<char>,
)
    requires
        a < b,
    ensures
        text_before(start, start + seq![a] + c),
        !text_before(start + seq![a] + c, start),
        text_before(start + seq![a] + c, start + seq![b] + d),
        !text_before(start + seq![b] + d, start + seq![a] + c),
    decreases start.len(),
{
    let one = start + seq![a] + c;
    let other = start + seq![b] + d;
    if start.len() > 0 {
        let rest = start.drop_first();
        the_first_difference_decides(rest, a, b, c, d);
        assert(one.drop_first() =~= rest + seq![a] + c);
        assert(other.drop_first() =~= rest + seq![b] + d);
    }
}

/// The length in bytes adds up, and each character counts as UTF-8 encodes it.
pub proof fn lengths_in_bytes_add_up(a: Seq<char>, b: Seq<char>, c: char)
    ensures
        byte_len(a + b) == byte_len(a) + byte_len(b),
        byte_len(seq![c]) == if (c as u32) < 0x80 {
            1nat
        } else if (c as u32) < 0x800 {
            2
        } else if (c as u32) < 0x10000 {
            3
        } else {
            4
        },
    decreases b.len(),
{
    if b.len() == 0 {
        assert(a + b =~= a);
    } else {
        lengths_in_bytes_add_up(a, b.drop_last(), c);
        assert((a + b).drop_last() =~= a + b.drop_last());
        assert((a + b).last() == b.last());
    }
    assert(seq![c].drop_last() =~= Seq::empty());
    assert(byte_len(seq![c].drop_last()) == 0);
}

/// Splitting goes part by part: what stands before a separator is split on its own, and so
/// is what stands behind it.
pub proof fn separators_part_texts(a: Seq<char>, sep: char, b: Seq<char>)
    ensures
        split_on(a + seq![sep] + b, sep) == split_on(a, sep) + split_on(b, sep),
    decreases b.len(),
{
    let s = a + seq![sep] + b;
    if b.len() == 0 {
        assert(s.drop_last() =~= a);
        assert(split_on(a, sep).push(Seq::empty()) =~= split_on(a, sep) + split_on(b, sep));
    } else {
        let init = b.drop_last();
        separators_part_texts(a, sep, init);
        join_undoes_split(init, sep);
        assert(s.drop_last() =~= a + seq![sep] + init);
        assert(s.last() == b.last());
        let first = split_on(a, sep);
        let second = split_on(init, sep);
        assert((first + second).last() == second.last());
        assert((first + second).drop_last() =~= first + second.drop_last());
        assert(split_on(s, sep) =~= first + split_on(b, sep));
    }
}

} // verus!
