use vstd::prelude::*;
use vstd::string::*;

verus! {

/// Appends one character to a string: std's `String::push`.
/// Claimed: the string's characters afterwards are the old ones followed by `c`.
#[verifier::external_body]
pub(crate) fn push_char(s: &mut String, c: char)
    ensures
        final(s)@ == old(s)@.push(c),
{
    s.push(c);
}

/// The characters of a string, in order.
pub fn chars_of(s: &str) -> (v: Vec<char>)
    ensures
        v@ == s@,
{
    let mut v: Vec<char> = Vec::new();
    for c in it: s.chars()
        invariant
            v@ == it.seq().take(it.index() as int),
    {
        v.push(c);
    }
    v
}

/// Appends a string slice.
pub fn push_str(s: &mut String, t: &str)
    ensures
        final(s)@ == old(s)@ + t@,
{
    s.append(t);
}

/// What a substitution table gives for one character: the replacement of the
/// first entry for `c`, or `c` itself where the table has none.
pub open spec fn lookup(table: Seq<(char, &'static str)>, c: char) -> Seq<char>
    decreases table.len(),
{
    if table.len() == 0 {
        seq![c]
    } else if table[0].0 == c {
        table[0].1@
    } else {
        lookup(table.drop_first(), c)
    }
}

/// Every character of `s` replaced by what the table gives for it.
pub open spec fn substitute(s: Seq<char>, table: Seq<(char, &'static str)>) -> Seq<char>
    decreases s.len(),
{
    if s.len() == 0 {
        seq![]
    } else {
        substitute(s.drop_last(), table) + lookup(table, s.last())
    }
}

proof fn lemma_substitute_push(s: Seq<char>, c: char, table: Seq<(char, &'static str)>)
    ensures
        substitute(s.push(c), table) == substitute(s, table) + lookup(table, c),
{
    assert(s.push(c).drop_last() =~= s);
}

/// Substitution works character by character, so it distributes over
/// concatenation.
pub(crate) proof fn lemma_substitute_concat(a: Seq<char>, b: Seq<char>, table: Seq<(char, &'static str)>)
    ensures
        substitute(a + b, table) == substitute(a, table) + substitute(b, table),
    decreases b.len(),
{
    if b.len() == 0 {
        assert(a + b =~= a);
        assert(substitute(a, table) + substitute(b, table) =~= substitute(a, table));
    } else {
        lemma_substitute_concat(a, b.drop_last(), table);
        assert((a + b).drop_last() =~= a + b.drop_last());
        assert((a + b).last() == b.last());
        assert(substitute(a, table) + substitute(b, table) =~= substitute(a, table) + substitute(
            b.drop_last(),
            table,
        ) + lookup(table, b.last()));
    }
}

fn push_lookup(out: &mut String, table: &[(char, &'static str)], c: char)
    ensures
        final(out)@ == old(out)@ + lookup(table@, c),
{
    let mut i: usize = 0;
    assert(table@.skip(0) =~= table@);
    while i < table.len()
        invariant
            i <= table@.len(),
            lookup(table@, c) == lookup(table@.skip(i as int), c),
            *out == *old(out),
        decreases table.len() - i,
    {
        let (k, rep) = table[i];
        assert(table@.skip(i as int).drop_first() =~= table@.skip(i + 1));
        if k == c {
            push_str(out, rep);
            return;
        }
        i += 1;
    }
    push_char(out, c);
}

/// Replaces each character of `s` by its entry in `table`, in one pass.
pub fn substitute_chars(s: &str, table: &[(char, &'static str)]) -> (r: String)
    ensures
        r@ == substitute(s@, table@),
{
    let mut out = String::new();
    let ghost mut done: Seq<char> = Seq::empty();
    for c in it: s.chars()
        invariant
            done == it.seq().take(it.index() as int),
            out@ == substitute(done, table@),
    {
        proof {
            lemma_substitute_push(done, c, table@);
            assert(it.seq().take(it.index() + 1) =~= done.push(c));
            done = done.push(c);
        }
        push_lookup(&mut out, table, c);
    }
    proof {
        assert(done =~= s@);
    }
    out
}

// ---------------------------------------------------------------------------
// Number formatting

/// The upper-case hexadecimal digit for `d` (0 to 15).
pub open spec fn hex_digit(d: int) -> char {
    seq!['0', '1', '2', '3', '4', '5', '6', '7', '8', '9', 'A', 'B', 'C', 'D', 'E', 'F'][d]
}

/// The upper-case hexadecimal digits of `n`, without leading zeros ("0" for 0).
pub open spec fn hex_digits(n: nat) -> Seq<char>
    decreases n,
{
    if n < 16 {
        seq![hex_digit(n as int)]
    } else {
        hex_digits(n / 16).push(hex_digit((n % 16) as int))
    }
}

/// The decimal digits of `n`, without leading zeros ("0" for 0).
pub open spec fn decimal_digits(n: nat) -> Seq<char>
    decreases n,
{
    if n < 10 {
        seq![seq!['0', '1', '2', '3', '4', '5', '6', '7', '8', '9'][n as int]]
    } else {
        decimal_digits(n / 10).push(seq!['0', '1', '2', '3', '4', '5', '6', '7', '8', '9'][(n % 10) as int])
    }
}

/// An integer written in decimal, with a leading '-' when negative.
pub open spec fn decimal(n: int) -> Seq<char> {
    if n < 0 {
        seq!['-'] + decimal_digits((-n) as nat)
    } else {
        decimal_digits(n as nat)
    }
}

/// `s` preceded by as many '0' as bring it to `width` characters.
pub open spec fn pad_zeros(s: Seq<char>, width: nat) -> Seq<char> {
    if s.len() < width {
        Seq::new((width - s.len()) as nat, |i: int| '0') + s
    } else {
        s
    }
}

/// `s` followed by as many spaces as bring it to `width` characters.
pub open spec fn pad_right(s: Seq<char>, width: nat) -> Seq<char> {
    if s.len() < width {
        s + Seq::new((width - s.len()) as nat, |i: int| ' ')
    } else {
        s
    }
}

/// The value of an upper-case hexadecimal digit.
pub open spec fn hex_digit_value(c: char) -> int {
    if '0' <= c <= '9' {
        (c as int) - ('0' as int)
    } else if 'A' <= c <= 'F' {
        (c as int) - ('A' as int) + 10
    } else {
        0
    }
}

/// The number that a string of hexadecimal digits denotes.
pub open spec fn hex_value(s: Seq<char>) -> int
    decreases s.len(),
{
    if s.len() == 0 {
        0
    } else {
        16 * hex_value(s.drop_last()) + hex_digit_value(s.last())
    }
}

proof fn lemma_hex_digit_value(d: int)
    requires
        0 <= d < 16,
    ensures
        hex_digit_value(hex_digit(d)) == d,
{
    let t = seq!['0', '1', '2', '3', '4', '5', '6', '7', '8', '9', 'A', 'B', 'C', 'D', 'E', 'F'];
    assert(t[0] == '0' && t[1] == '1' && t[2] == '2' && t[3] == '3' && t[4] == '4' && t[5] == '5');
    assert(t[6] == '6' && t[7] == '7' && t[8] == '8' && t[9] == '9' && t[10] == 'A' && t[11] == 'B');
    assert(t[12] == 'C' && t[13] == 'D' && t[14] == 'E' && t[15] == 'F');
}

/// The hexadecimal digits written for a number denote that number, so
/// different numbers are written differently.
pub proof fn hex_digits_denote(n: nat)
    ensures
        hex_value(hex_digits(n)) == n,
    decreases n,
{
    if n < 16 {
        lemma_hex_digit_value(n as int);
        let s = seq![hex_digit(n as int)];
        assert(s.drop_last() =~= Seq::<char>::empty());
        assert(hex_value(s.drop_last()) == 0);
        assert(hex_value(s) == 16 * hex_value(s.drop_last()) + hex_digit_value(s.last()));
    } else {
        hex_digits_denote(n / 16);
        lemma_hex_digit_value((n % 16) as int);
        let s = hex_digits(n / 16).push(hex_digit((n % 16) as int));
        assert(s.drop_last() =~= hex_digits(n / 16));
        assert(hex_value(s) == 16 * hex_value(s.drop_last()) + hex_digit_value(s.last()));
        assert(16 * (n / 16) + n % 16 == n);
    }
}

/// Hexadecimal digits and the zeros that pad them are never spaces.
pub(crate) proof fn lemma_hex_digits_no_space(n: nat, width: nat)
    ensures
        forall|i: int| 0 <= i < pad_zeros(hex_digits(n), width).len() ==> #[trigger] pad_zeros(
            hex_digits(n),
            width,
        )[i] != ' ',
        pad_zeros(hex_digits(n), width).len() >= width,
{
    lemma_hex_digits_no_space_inner(n);
}

proof fn lemma_hex_digit_not_space(d: int)
    requires
        0 <= d < 16,
    ensures
        hex_digit(d) != ' ',
{
    lemma_hex_digit_value(d);
    if hex_digit(d) == ' ' {
        assert(hex_digit_value(' ') == 0);
        assert(d == 0);
        let t = seq!['0', '1', '2', '3', '4', '5', '6', '7', '8', '9', 'A', 'B', 'C', 'D', 'E', 'F'];
        assert(t[0] == '0');
    }
}

proof fn lemma_hex_digits_no_space_inner(n: nat)
    ensures
        forall|i: int| 0 <= i < hex_digits(n).len() ==> #[trigger] hex_digits(n)[i] != ' ',
    decreases n,
{
    if n < 16 {
        lemma_hex_digit_not_space(n as int);
    } else {
        lemma_hex_digits_no_space_inner(n / 16);
        lemma_hex_digit_not_space((n % 16) as int);
        let s = hex_digits(n / 16);
        assert forall|i: int| 0 <= i < hex_digits(n).len() implies #[trigger] hex_digits(n)[i] != ' ' by {
            if i < s.len() {
                assert(hex_digits(n)[i] == s[i]);
            }
        }
    }
}

/// Leading zeros do not change the number that hexadecimal digits denote.
pub proof fn pad_zeros_keeps_value(s: Seq<char>, width: nat)
    ensures
        hex_value(pad_zeros(s, width)) == hex_value(s),
    decreases s.len(),
{
    if s.len() < width {
        let z = Seq::new((width - s.len()) as nat, |i: int| '0');
        lemma_zeros_value(z);
        lemma_hex_value_zeros_prefix(z, s);
    }
}

proof fn lemma_zeros_value(z: Seq<char>)
    requires
        forall|i: int| 0 <= i < z.len() ==> z[i] == '0',
    ensures
        hex_value(z) == 0,
    decreases z.len(),
{
    if z.len() > 0 {
        lemma_zeros_value(z.drop_last());
    }
}

proof fn lemma_hex_value_zeros_prefix(z: Seq<char>, s: Seq<char>)
    requires
        hex_value(z) == 0,
        forall|i: int| 0 <= i < z.len() ==> z[i] == '0',
    ensures
        hex_value(z + s) == hex_value(s),
    decreases s.len(),
{
    if s.len() == 0 {
        assert(z + s =~= z);
    } else {
        lemma_hex_value_zeros_prefix(z, s.drop_last());
        assert((z + s).drop_last() =~= z + s.drop_last());
        assert((z + s).last() == s.last());
    }
}

pub fn push_hex_digit(out: &mut String, d: usize)
    requires
        d < 16,
    ensures
        final(out)@ == old(out)@.push(hex_digit(d as int)),
{
    let digits: [char; 16] = ['0', '1', '2', '3', '4', '5', '6', '7', '8', '9', 'A', 'B', 'C', 'D', 'E', 'F'];
    assert(digits@ =~= seq!['0', '1', '2', '3', '4', '5', '6', '7', '8', '9', 'A', 'B', 'C', 'D', 'E', 'F']);
    push_char(out, digits[d]);
}

/// Appends the hexadecimal digits of `n`.
pub fn push_hex(out: &mut String, n: usize)
    ensures
        final(out)@ == old(out)@ + hex_digits(n as nat),
    decreases n,
{
    if n >= 16 {
        push_hex(out, n / 16);
    }
    let ghost before = out@;
    push_hex_digit(out, n % 16);
    proof {
        if n >= 16 {
            assert(out@ =~= old(out)@ + hex_digits(n as nat));
        } else {
            assert(out@ =~= old(out)@ + hex_digits(n as nat));
        }
    }
}

/// Appends the decimal digits of `n`.
pub fn push_decimal_digits(out: &mut String, n: u64)
    ensures
        final(out)@ == old(out)@ + decimal_digits(n as nat),
    decreases n,
{
    if n >= 10 {
        push_decimal_digits(out, n / 10);
    }
    let digits: [char; 10] = ['0', '1', '2', '3', '4', '5', '6', '7', '8', '9'];
    assert(digits@ =~= seq!['0', '1', '2', '3', '4', '5', '6', '7', '8', '9']);
    push_char(out, digits[(n % 10) as usize]);
    proof {
        assert(out@ =~= old(out)@ + decimal_digits(n as nat));
    }
}

/// Appends `n` in decimal, as `format!("{}", n)` writes an `i32`.
pub fn push_decimal_i32(out: &mut String, n: i32)
    ensures
        final(out)@ == old(out)@ + decimal(n as int),
{
    if n < 0 {
        push_char(out, '-');
        let m: i64 = -(n as i64);
        push_decimal_digits(out, m as u64);
        assert(out@ =~= old(out)@ + decimal(n as int));
    } else {
        push_decimal_digits(out, n as u64);
    }
}

/// Appends the character `c`, `n` times.
pub fn push_repeated(out: &mut String, c: char, n: usize)
    ensures
        final(out)@ == old(out)@ + Seq::new(n as nat, |i: int| c),
{
    let ghost start = out@;
    let mut i: usize = 0;
    while i < n
        invariant
            i <= n,
            out@ == start + Seq::new(i as nat, |k: int| c),
        decreases n - i,
    {
        push_char(out, c);
        i += 1;
        assert(out@ =~= start + Seq::new(i as nat, |k: int| c));
    }
}

// ---------------------------------------------------------------------------
// Joining, parsing

/// The parts, separated by `sep`.
pub open spec fn join(parts: Seq<Seq<char>>, sep: Seq<char>) -> Seq<char>
    decreases parts.len(),
{
    if parts.len() == 0 {
        Seq::empty()
    } else if parts.len() == 1 {
        parts[0]
    } else {
        join(parts.drop_last(), sep) + sep + parts.last()
    }
}

pub open spec fn string_texts(v: Seq<String>) -> Seq<Seq<char>> {
    v.map_values(|s: String| s@)
}

/// Joins strings with a separator, as `[String]::join` does.
pub fn join_strings(parts: &Vec<String>, sep: &str) -> (r: String)
    ensures
        r@ == join(string_texts(parts@), sep@),
{
    let mut out = String::new();
    let mut i: usize = 0;
    while i < parts.len()
        invariant
            i <= parts@.len(),
            out@ == join(string_texts(parts@.take(i as int)), sep@),
        decreases parts.len() - i,
    {
        assert(string_texts(parts@.take(i + 1)).drop_last() =~= string_texts(parts@.take(i as int)));
        if i > 0 {
            push_str(&mut out, sep);
        }
        push_str(&mut out, parts[i].as_str());
        i += 1;
    }
    assert(parts@.take(parts@.len() as int) =~= parts@);
    out
}

pub open spec fn is_digit(c: char) -> bool {
    '0' <= c <= '9'
}

/// The value of a string of decimal digits.
pub open spec fn digits_value(s: Seq<char>) -> int
    decreases s.len(),
{
    if s.len() == 0 {
        0
    } else {
        10 * digits_value(s.drop_last()) + ((s.last() as int) - ('0' as int))
    }
}

pub open spec fn all_digits(s: Seq<char>) -> bool {
    forall|i: int| 0 <= i < s.len() ==> is_digit(#[trigger] s[i])
}

/// The characters after an optional leading sign.
pub open spec fn unsigned_part(s: Seq<char>) -> Seq<char> {
    if s.len() > 0 && (s[0] == '-' || s[0] == '+') {
        s.skip(1)
    } else {
        s
    }
}

/// What `str::parse::<i32>` gives: an optional sign, then at least one
/// decimal digit and nothing else, of a value that fits in an `i32`.
pub open spec fn parse_i32(s: Seq<char>) -> Option<i32> {
    let digits = unsigned_part(s);
    let value: int = if s.len() > 0 && s[0] == '-' {
        -digits_value(digits)
    } else {
        digits_value(digits)
    };
    if digits.len() > 0 && all_digits(digits) && i32::MIN <= value <= i32::MAX {
        Some(value as i32)
    } else {
        None
    }
}

proof fn lemma_digits_value_push(s: Seq<char>, c: char)
    ensures
        digits_value(s.push(c)) == 10 * digits_value(s) + ((c as int) - ('0' as int)),
{
    assert(s.push(c).drop_last() =~= s);
}

/// Parses a decimal `i32` the way `str::parse::<i32>` does.
pub fn parse_i32_exec(s: &str) -> (r: Option<i32>)
    ensures
        r == parse_i32(s@),
{
    let chars = chars_of(s);
    let n = chars.len();
    let mut start: usize = 0;
    let mut negative = false;
    if n > 0 && (chars[0] == '-' || chars[0] == '+') {
        negative = chars[0] == '-';
        start = 1;
    }
    let ghost digits = unsigned_part(s@);
    assert(digits =~= chars@.subrange(start as int, n as int));
    if start >= n {
        return None;
    }
    // The value, capped just above what an i32 can hold.
    let cap: u64 = 0x1_0000_0000;
    let mut value: u64 = 0;
    let mut i: usize = start;
    while i < n
        invariant
            start <= i <= n,
            n == chars@.len(),
            cap == 0x1_0000_0000,
            digits == unsigned_part(s@),
            digits =~= chars@.subrange(start as int, n as int),
            forall|j: int| start <= j < i ==> is_digit(#[trigger] chars@[j]),
            0 <= digits_value(chars@.subrange(start as int, i as int)),
            value as int == if digits_value(chars@.subrange(start as int, i as int)) < cap {
                digits_value(chars@.subrange(start as int, i as int))
            } else {
                cap as int
            },
        decreases n - i,
    {
        let c = chars[i];
        if !('0' <= c && c <= '9') {
            assert(digits[i - start] == chars@[i as int]);
            assert(!is_digit(digits[i - start]));
            assert(!all_digits(digits));
            return None;
        }
        let d = (c as u32 - '0' as u32) as u64;
        assert(d <= 9);
        proof {
            assert(chars@.subrange(start as int, i + 1) =~= chars@.subrange(start as int, i as int).push(c));
            lemma_digits_value_push(chars@.subrange(start as int, i as int), c);
        }
        if value >= cap {
            value = cap;
        } else if value * 10 + d >= cap {
            value = cap;
        } else {
            value = value * 10 + d;
        }
        i += 1;
    }
    assert(chars@.subrange(start as int, n as int) =~= digits);
    assert forall|j: int| 0 <= j < digits.len() implies is_digit(#[trigger] digits[j]) by {
        assert(digits[j] == chars@[start + j]);
    }
    assert(all_digits(digits));
    if negative {
        if value <= 0x8000_0000 {
            Some((0 - (value as i64)) as i32)
        } else {
            None
        }
    } else {
        if value <= 0x7fff_ffff {
            Some(value as i32)
        } else {
            None
        }
    }
}

} // verus!
