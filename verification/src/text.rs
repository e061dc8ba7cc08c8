//! Text building blocks: numerals, padding, scanning and path joining.
use vstd::prelude::*;

verus! {

/// `String::push` appends one character.
pub assume_specification[ String::push ](s: &mut String, c: char)
    ensures
        final(s)@ == old(s)@.push(c),
;

// ---------------------------------------------------------------------------
// Strings and characters
// ---------------------------------------------------------------------------

/// The characters of `s`, in order.
pub fn chars_of(s: &str) -> (r: Vec<char>)
    ensures
        r@ == s@,
{
    let mut out: Vec<char> = Vec::new();
    for c in it: s.chars()
        invariant
            it.seq() == s@,
            out@ == s@.take(it.index()),
    {
        out.push(c);
    }
    out
}

/// Appends `chars[from..to]` to `out`.
pub fn push_range(out: &mut String, chars: &Vec<char>, from: usize, to: usize)
    requires
        from <= to <= chars@.len(),
    ensures
        final(out)@ == old(out)@ + chars@.subrange(from as int, to as int),
{
    let ghost start = out@;
    let mut i: usize = from;
    while i < to
        invariant
            from <= i <= to <= chars@.len(),
            out@ == start + chars@.subrange(from as int, i as int),
        decreases to - i,
    {
        out.push(chars[i]);
        i = i + 1;
    }
}

/// The text of `chars[from..to]`.
pub fn text_of_range(chars: &Vec<char>, from: usize, to: usize) -> (r: String)
    requires
        from <= to <= chars@.len(),
    ensures
        r@ == chars@.subrange(from as int, to as int),
{
    let mut out = String::new();
    push_range(&mut out, chars, from, to);
    out
}

/// Whether `a` and `b` hold the same characters.
pub fn same_text(a: &str, b: &str) -> (r: bool)
    ensures
        r == (a@ == b@),
{
    let a = a.to_owned();
    let b = b.to_owned();
    a == b
}

/// A copy of an optional text.
pub fn copy_opt(o: &Option<String>) -> (r: Option<String>)
    ensures
        r == *o,
{
    match o {
        Some(s) => Some(s.clone()),
        None => None,
    }
}

/// A copy of a list of key/value texts.
pub fn copy_pairs(v: &Vec<(String, String)>) -> (r: Vec<(String, String)>)
    ensures
        r@ == v@,
{
    let mut out: Vec<(String, String)> = Vec::new();
    let mut i: usize = 0;
    while i < v.len()
        invariant
            i <= v@.len(),
            out@ == v@.take(i as int),
        decreases v@.len() - i,
    {
        out.push((v[i].0.clone(), v[i].1.clone()));
        i = i + 1;
    }
    assert(v@.take(v@.len() as int) == v@);
    out
}

/// Whether some text of `v` equals `s`.
pub fn contains_text(v: &Vec<String>, s: &str) -> (r: bool)
    ensures
        r == v.deep_view().contains(s@),
{
    let mut i: usize = 0;
    while i < v.len()
        invariant
            i <= v@.len(),
            forall|j: int| 0 <= j < i ==> v@[j]@ != s@,
        decreases v@.len() - i,
    {
        if same_text(v[i].as_str(), s) {
            assert(v.deep_view()[i as int] == s@);
            return true;
        }
        i = i + 1;
    }
    false
}

// ---------------------------------------------------------------------------
// Numerals
// ---------------------------------------------------------------------------

/// The character of a decimal digit.
pub open spec fn digit_char(d: int) -> char {
    (48 + d) as char
}

/// The decimal numeral of `n`, without leading zeros.
pub open spec fn decimal(n: nat) -> Seq<char>
    decreases n,
{
    if n < 10 {
        seq![digit_char(n as int)]
    } else {
        decimal(n / 10).push(digit_char((n % 10) as int))
    }
}

/// The character of a lower-case hexadecimal digit.
pub open spec fn hex_char(d: int) -> char {
    if d < 10 {
        (48 + d) as char
    } else {
        (87 + d) as char
    }
}

/// The lower-case hexadecimal numeral of `n`, without leading zeros.
pub open spec fn hexadecimal(n: nat) -> Seq<char>
    decreases n,
{
    if n < 16 {
        seq![hex_char(n as int)]
    } else {
        hexadecimal(n / 16).push(hex_char((n % 16) as int))
    }
}

/// `s`, filled up on the left with `fill` to at least `width` characters.
pub open spec fn padded(s: Seq<char>, width: nat, fill: char) -> Seq<char> {
    if s.len() < width {
        Seq::new((width - s.len()) as nat, |i: int| fill) + s
    } else {
        s
    }
}

/// A decimal numeral that always carries its sign.
pub open spec fn signed_decimal(n: int) -> Seq<char> {
    if n < 0 {
        "-"@ + decimal((-n) as nat)
    } else {
        "+"@ + decimal(n as nat)
    }
}

/// A decimal numeral with a sign only where it is negative.
pub open spec fn integer_text(n: int) -> Seq<char> {
    if n < 0 {
        "-"@ + decimal((-n) as nat)
    } else {
        decimal(n as nat)
    }
}

/// `n` in decimal, at least two digits wide.
pub open spec fn two_digits(n: nat) -> Seq<char> {
    padded(decimal(n), 2, '0')
}

/// Appends the decimal numeral of `n`.
pub fn push_decimal(out: &mut String, n: u64)
    ensures
        final(out)@ == old(out)@ + decimal(n as nat),
    decreases n,
{
    let ghost start = out@;
    if n >= 10 {
        push_decimal(out, n / 10);
    }
    let digit: u8 = (n % 10) as u8;
    out.push((48 + digit) as char);
    assert(out@ == start + decimal(n as nat));
}

/// The decimal numeral of `n`.
pub fn decimal_text(n: u64) -> (r: String)
    ensures
        r@ == decimal(n as nat),
{
    let mut out = String::new();
    push_decimal(&mut out, n);
    assert(Seq::<char>::empty() + decimal(n as nat) == decimal(n as nat));
    out
}

/// Appends the hexadecimal numeral of `n`.
pub fn push_hex(out: &mut String, n: u64)
    ensures
        final(out)@ == old(out)@ + hexadecimal(n as nat),
    decreases n,
{
    let ghost start = out@;
    if n >= 16 {
        push_hex(out, n / 16);
    }
    let digit: u8 = (n % 16) as u8;
    if digit < 10 {
        out.push((48 + digit) as char);
    } else {
        out.push((87 + digit) as char);
    }
    assert(out@ == start + hexadecimal(n as nat));
}

/// The hexadecimal numeral of `n`.
pub fn hex_text(n: u64) -> (r: String)
    ensures
        r@ == hexadecimal(n as nat),
{
    let mut out = String::new();
    push_hex(&mut out, n);
    assert(Seq::<char>::empty() + hexadecimal(n as nat) == hexadecimal(n as nat));
    out
}

/// Appends `s`, filled up on the left to `width` characters.
pub fn push_padded(out: &mut String, s: &str, width: usize, fill: char)
    ensures
        final(out)@ == old(out)@ + padded(s@, width as nat, fill),
{
    let ghost start = out@;
    let chars = chars_of(s);
    let len: usize = chars.len();
    let mut i: usize = len;
    while i < width
        invariant
            len == s@.len(),
            len <= i,
            i <= width || i == len,
            out@ == start + Seq::new((i - len) as nat, |k: int| fill),
        decreases width - i,
    {
        out.push(fill);
        i = i + 1;
    }
    out.append(s);
    assert(out@ == start + padded(s@, width as nat, fill));
}

/// Appends the decimal numeral of `n`, filled up to `width` characters.
pub fn push_padded_decimal(out: &mut String, n: u64, width: usize, fill: char)
    ensures
        final(out)@ == old(out)@ + padded(decimal(n as nat), width as nat, fill),
{
    let digits = decimal_text(n);
    push_padded(out, digits.as_str(), width, fill);
}

/// Appends `n` in decimal, at least two digits wide.
pub fn push_two_digits(out: &mut String, n: u64)
    ensures
        final(out)@ == old(out)@ + two_digits(n as nat),
{
    push_padded_decimal(out, n, 2, '0');
}

/// Appends the hexadecimal numeral of `n`, filled up with zeros to `width`.
pub fn push_padded_hex(out: &mut String, n: u64, width: usize)
    ensures
        final(out)@ == old(out)@ + padded(hexadecimal(n as nat), width as nat, '0'),
{
    let digits = hex_text(n);
    push_padded(out, digits.as_str(), width, '0');
}

/// Appends `n` with its sign.
pub fn push_signed(out: &mut String, n: i32)
    ensures
        final(out)@ == old(out)@ + signed_decimal(n as int),
{
    let ghost start = out@;
    if n < 0 {
        out.append("-");
        push_decimal(out, (-(n as i64)) as u64);
    } else {
        out.append("+");
        push_decimal(out, n as u64);
    }
    assert(out@ == start + signed_decimal(n as int));
}

/// Appends `n`, with a sign only where it is negative.
pub fn push_integer(out: &mut String, n: i32)
    ensures
        final(out)@ == old(out)@ + integer_text(n as int),
{
    let ghost start = out@;
    if n < 0 {
        out.append("-");
        push_decimal(out, (-(n as i64)) as u64);
    } else {
        push_decimal(out, n as u64);
    }
    assert(out@ == start + integer_text(n as int));
}

/// Hours, minutes and seconds, each at least two digits wide.
pub open spec fn clock(secs: nat) -> Seq<char> {
    two_digits(secs / 3600) + ":"@ + two_digits((secs % 3600) / 60) + ":"@ + two_digits(secs % 60)
}

/// Appends `secs` as hours, minutes and seconds.
pub fn push_clock(out: &mut String, secs: u64)
    ensures
        final(out)@ == old(out)@ + clock(secs as nat),
{
    let ghost start = out@;
    push_two_digits(out, secs / 3600);
    out.append(":");
    push_two_digits(out, (secs % 3600) / 60);
    out.append(":");
    push_two_digits(out, secs % 60);
    assert(out@ == start + clock(secs as nat));
}

/// Distinct numbers have distinct decimal numerals.
pub proof fn decimal_is_injective(a: nat, b: nat)
    requires
        decimal(a) == decimal(b),
    ensures
        a == b,
{
    decimal_reads_back(a);
    decimal_reads_back(b);
}

/// Reading a decimal numeral gives back its number.
pub proof fn decimal_reads_back(n: nat)
    ensures
        all_digits(decimal(n)),
        decimal(n).len() > 0,
        digits_value(decimal(n)) == n,
    decreases n,
{
    if n >= 10 {
        decimal_reads_back(n / 10);
        let d = decimal(n);
        assert(d.drop_last() == decimal(n / 10));
        assert(d.last() == digit_char((n % 10) as int));
        assert forall|i: int| 0 <= i < d.len() implies is_digit(#[trigger] d[i]) by {
            if i < d.len() - 1 {
                assert(d[i] == d.drop_last()[i]);
            }
        }
    } else {
        let d = decimal(n);
        assert(d.drop_last() == Seq::<char>::empty());
        assert(digits_value(d.drop_last()) == 0);
        assert(d.last() == digit_char(n as int));
    }
}

// ---------------------------------------------------------------------------
// Scanning
// ---------------------------------------------------------------------------

/// Whether `c` is an ASCII decimal digit.
pub open spec fn is_digit(c: char) -> bool {
    '0' <= c && c <= '9'
}

/// Whether every character is a digit.
pub open spec fn all_digits(s: Seq<char>) -> bool {
    forall|i: int| 0 <= i < s.len() ==> is_digit(#[trigger] s[i])
}

/// The number that a sequence of digits writes.
pub open spec fn digits_value(s: Seq<char>) -> nat
    decreases s.len(),
{
    if s.len() == 0 {
        0
    } else {
        digits_value(s.drop_last()) * 10 + (s.last() as nat - 48) as nat
    }
}

/// The number that a non-empty run of digits writes, where it is at most `max`.
pub open spec fn parse_digits(s: Seq<char>, max: nat) -> Option<nat> {
    if s.len() > 0 && all_digits(s) && digits_value(s) <= max {
        Some(digits_value(s))
    } else {
        None
    }
}

/// The number that an optional plus sign and digits write, at most `max`.
pub open spec fn parse_number(s: Seq<char>, max: nat) -> Option<nat> {
    if s.len() > 1 && s[0] == '+' {
        parse_digits(s.skip(1), max)
    } else {
        parse_digits(s, max)
    }
}

/// The end of the run of digits that starts at `from`.
pub open spec fn digits_end(s: Seq<char>, from: int) -> int
    decreases s.len() - from,
{
    if 0 <= from < s.len() && is_digit(s[from]) {
        digits_end(s, from + 1)
    } else {
        from
    }
}

/// A prefix of digits writes no larger a number than the whole.
proof fn lemma_digits_value_grows(s: Seq<char>, k: int)
    requires
        0 <= k <= s.len(),
    ensures
        digits_value(s.take(k)) <= digits_value(s),
    decreases s.len() - k,
{
    if k == s.len() {
        assert(s.take(k) == s);
    } else {
        lemma_digits_value_grows(s, k + 1);
        assert(s.take(k + 1).drop_last() == s.take(k));
    }
}

/// The run of digits at `from` holds digits alone and stops at the first
/// character that is none.
pub proof fn lemma_digits_end(s: Seq<char>, from: int)
    requires
        0 <= from <= s.len(),
    ensures
        from <= digits_end(s, from) <= s.len(),
        all_digits(s.subrange(from, digits_end(s, from))),
        digits_end(s, from) < s.len() ==> !is_digit(s[digits_end(s, from)]),
    decreases s.len() - from,
{
    if from < s.len() && is_digit(s[from]) {
        lemma_digits_end(s, from + 1);
        let end = digits_end(s, from);
        let run = s.subrange(from, end);
        assert forall|i: int| 0 <= i < run.len() implies is_digit(#[trigger] run[i]) by {
            if i > 0 {
                assert(run[i] == s.subrange(from + 1, end)[i - 1]);
            }
        }
    }
}

/// Digits up to the first character that is none are the whole run.
pub proof fn lemma_digits_until(s: Seq<char>, from: int, to: int)
    requires
        0 <= from <= to < s.len(),
        forall|i: int| from <= i < to ==> is_digit(#[trigger] s[i]),
        !is_digit(s[to]),
    ensures
        digits_end(s, from) == to,
    decreases to - from,
{
    if from < to {
        lemma_digits_until(s, from + 1, to);
    }
}

/// Whether `c` is a digit.
pub fn char_is_digit(c: char) -> (r: bool)
    ensures
        r == is_digit(c),
{
    c >= '0' && c <= '9'
}

/// The end of the run of digits that starts at `from`.
pub fn digits_run_end(chars: &Vec<char>, from: usize) -> (r: usize)
    requires
        from <= chars@.len(),
    ensures
        r == digits_end(chars@, from as int),
        from <= r <= chars@.len(),
{
    let mut i: usize = from;
    while i < chars.len() && char_is_digit(chars[i])
        invariant
            from <= i <= chars@.len(),
            digits_end(chars@, from as int) == digits_end(chars@, i as int),
        decreases chars@.len() - i,
    {
        i = i + 1;
    }
    i
}

/// The number that `chars[from..to]` writes in digits, where it is at most `max`.
pub fn parse_digit_range(chars: &Vec<char>, from: usize, to: usize, max: u64) -> (r: Option<u64>)
    requires
        from <= to <= chars@.len(),
    ensures
        r is Some <==> parse_digits(chars@.subrange(from as int, to as int), max as nat) is Some,
        r matches Some(n) ==> parse_digits(chars@.subrange(from as int, to as int), max as nat)
            == Some(n as nat),
{
    let ghost s = chars@.subrange(from as int, to as int);
    if from == to {
        return None;
    }
    let mut value: u64 = 0;
    let mut i: usize = from;
    while i < to
        invariant
            from <= i <= to <= chars@.len(),
            s == chars@.subrange(from as int, to as int),
            forall|j: int| 0 <= j < i - from ==> is_digit(#[trigger] s[j]),
            value == digits_value(s.take(i - from)),
            value <= max,
        decreases to - i,
    {
        let c = chars[i];
        assert(s[i - from] == c);
        assert(s.take(i + 1 - from).drop_last() == s.take(i - from));
        if !char_is_digit(c) {
            assert(!all_digits(s));
            return None;
        }
        let digit: u64 = c as u64 - 48;
        assert(digits_value(s.take(i + 1 - from)) == value * 10 + digit);
        let next: u128 = value as u128 * 10 + digit as u128;
        if next > max as u128 {
            proof {
                lemma_digits_value_grows(s, i + 1 - from);
            }
            return None;
        }
        value = next as u64;
        i = i + 1;
    }
    assert(s.take(to - from) == s);
    Some(value)
}

/// The number that a text writes as digits behind an optional plus sign,
/// where it is at most `max`.
pub fn parse_number_text(s: &str, max: u64) -> (r: Option<u64>)
    ensures
        r is Some <==> parse_number(s@, max as nat) is Some,
        r matches Some(n) ==> parse_number(s@, max as nat) == Some(n as nat),
{
    let chars = chars_of(s);
    let len: usize = chars.len();
    assert(s@.subrange(0, len as int) == s@);
    if len > 1 && chars[0] == '+' {
        assert(s@.subrange(1, len as int) == s@.skip(1));
        parse_digit_range(&chars, 1, len, max)
    } else {
        parse_digit_range(&chars, 0, len, max)
    }
}

/// Whether `c` has the Unicode property White_Space.
pub open spec fn is_white(c: char) -> bool {
    let u = c as u32;
    ||| 0x9 <= u <= 0xD
    ||| u == 0x20
    ||| u == 0x85
    ||| u == 0xA0
    ||| u == 0x1680
    ||| 0x2000 <= u <= 0x200A
    ||| u == 0x2028
    ||| u == 0x2029
    ||| u == 0x202F
    ||| u == 0x205F
    ||| u == 0x3000
}

/// Whether `c` is white space.
pub fn char_is_white(c: char) -> (r: bool)
    ensures
        r == is_white(c),
{
    let u = c as u32;
    (u >= 0x9 && u <= 0xD) || u == 0x20 || u == 0x85 || u == 0xA0 || u == 0x1680 || (u >= 0x2000
        && u <= 0x200A) || u == 0x2028 || u == 0x2029 || u == 0x202F || u == 0x205F || u == 0x3000
}

/// The first position from `i` on that is not white space.
pub open spec fn skip_white(s: Seq<char>, i: int) -> int
    decreases s.len() - i,
{
    if 0 <= i < s.len() && is_white(s[i]) {
        skip_white(s, i + 1)
    } else {
        i
    }
}

/// `s` without white space at its end.
pub open spec fn trim_end(s: Seq<char>) -> Seq<char>
    decreases s.len(),
{
    if s.len() > 0 && is_white(s.last()) {
        trim_end(s.drop_last())
    } else {
        s
    }
}

/// `s` without white space at either end.
pub open spec fn trim(s: Seq<char>) -> Seq<char> {
    trim_end(s.skip(skip_white(s, 0)))
}

/// `chars` without white space at either end.
pub fn trimmed(chars: &Vec<char>) -> (r: Vec<char>)
    ensures
        r@ == trim(chars@),
{
    let len: usize = chars.len();
    let mut from: usize = 0;
    while from < len && char_is_white(chars[from])
        invariant
            len == chars@.len(),
            from <= len,
            skip_white(chars@, 0) == skip_white(chars@, from as int),
        decreases len - from,
    {
        from = from + 1;
    }
    let ghost tail = chars@.skip(from as int);
    let mut to: usize = len;
    assert(chars@.subrange(from as int, to as int) == tail);
    while to > from && char_is_white(chars[to - 1])
        invariant
            len == chars@.len(),
            from <= to <= len,
            trim_end(tail) == trim_end(chars@.subrange(from as int, to as int)),
        decreases to - from,
    {
        assert(chars@.subrange(from as int, to as int).drop_last() == chars@.subrange(
            from as int,
            to - 1,
        ));
        to = to - 1;
    }
    let mut out: Vec<char> = Vec::new();
    let mut i: usize = from;
    while i < to
        invariant
            len == chars@.len(),
            from <= i <= to <= len,
            out@ == chars@.subrange(from as int, i as int),
        decreases to - i,
    {
        out.push(chars[i]);
        i = i + 1;
    }
    out
}

/// Whether `pattern` stands in `s` at position `i`.
pub open spec fn stands_at(s: Seq<char>, pattern: Seq<char>, i: int) -> bool {
    0 <= i && i + pattern.len() <= s.len() && s.subrange(i, i + pattern.len()) == pattern
}

/// The first position from `i` on at which `pattern` stands in `s`.
pub open spec fn find_from(s: Seq<char>, pattern: Seq<char>, i: int) -> Option<int>
    decreases s.len() - i + 1,
{
    if i < 0 || i + pattern.len() > s.len() {
        None
    } else if stands_at(s, pattern, i) {
        Some(i)
    } else {
        find_from(s, pattern, i + 1)
    }
}

/// Whether `pattern` stands in `s` at position `i`.
pub fn pattern_at(s: &Vec<char>, pattern: &Vec<char>, i: usize) -> (r: bool)
    ensures
        r == stands_at(s@, pattern@, i as int),
{
    let len: usize = pattern.len();
    if len > s.len() || i > s.len() - len {
        return false;
    }
    let mut k: usize = 0;
    while k < len
        invariant
            len == pattern@.len(),
            i + len <= s.len(),
            k <= len,
            forall|j: int| 0 <= j < k ==> s@[i + j] == pattern@[j],
        decreases len - k,
    {
        if s[i + k] != pattern[k] {
            assert(s@.subrange(i as int, i + len)[k as int] != pattern@[k as int]);
            return false;
        }
        k = k + 1;
    }
    assert(s@.subrange(i as int, i + len) == pattern@);
    true
}

/// The first position at which `pattern` stands in `s`.
pub fn find_pattern(s: &Vec<char>, pattern: &str) -> (r: Option<usize>)
    ensures
        r is Some <==> find_from(s@, pattern@, 0) is Some,
        r matches Some(i) ==> find_from(s@, pattern@, 0) == Some(i as int) && stands_at(
            s@,
            pattern@,
            i as int,
        ),
{
    let wanted = chars_of(pattern);
    if wanted.len() > s.len() {
        return None;
    }
    let last: usize = s.len() - wanted.len();
    let mut i: usize = 0;
    while i <= last
        invariant
            wanted@ == pattern@,
            last + wanted@.len() == s@.len(),
            i <= last,
            find_from(s@, pattern@, 0) == find_from(s@, pattern@, i as int),
        decreases last + 1 - i,
    {
        if pattern_at(s, &wanted, i) {
            return Some(i);
        }
        if i == last {
            assert(find_from(s@, pattern@, i + 1) is None);
            return None;
        }
        i = i + 1;
    }
    None
}

/// The pieces of `s` between occurrences of `sep`.
pub open spec fn split_on(s: Seq<char>, sep: char) -> Seq<Seq<char>>
    decreases s.len(),
{
    if s.len() == 0 {
        seq![Seq::<char>::empty()]
    } else {
        let before = split_on(s.drop_last(), sep);
        if s.last() == sep {
            before.push(Seq::<char>::empty())
        } else {
            before.drop_last().push(before.last().push(s.last()))
        }
    }
}

/// The pieces of `s` between occurrences of `sep`.
pub fn split_text(s: &str, sep: char) -> (r: Vec<String>)
    ensures
        r.deep_view() == split_on(s@, sep),
{
    let chars = chars_of(s);
    let mut done: Vec<String> = Vec::new();
    let mut piece = String::new();
    let mut i: usize = 0;
    assert(done.deep_view().push(piece@) == split_on(chars@.take(0), sep));
    while i < chars.len()
        invariant
            i <= chars@.len(),
            done.deep_view().push(piece@) == split_on(chars@.take(i as int), sep),
        decreases chars@.len() - i,
    {
        let c = chars[i];
        let ghost before = done.deep_view();
        let ghost piece_before = piece@;
        assert(chars@.take(i + 1).drop_last() == chars@.take(i as int));
        assert(before.push(piece_before).drop_last() == before);
        if c == sep {
            done.push(piece);
            piece = String::new();
            assert(done.deep_view() == before.push(piece_before));
        } else {
            piece.push(c);
        }
        i = i + 1;
    }
    assert(chars@.take(chars@.len() as int) == chars@);
    let ghost before = done.deep_view();
    let ghost piece_before = piece@;
    done.push(piece);
    assert(done.deep_view() == before.push(piece_before));
    done
}

// ---------------------------------------------------------------------------
// Paths
// ---------------------------------------------------------------------------

/// `part` below the directory `base`: an absolute `part` stands alone, and a
/// separator is put in between where `base` does not end in one.
pub open spec fn joined(base: Seq<char>, part: Seq<char>) -> Seq<char> {
    if part.len() > 0 && part[0] == '/' {
        part
    } else if base.len() == 0 || base.last() == '/' {
        base + part
    } else {
        base.push('/') + part
    }
}

/// `part` below the directory `base`.
pub fn join_path(base: &str, part: &str) -> (r: String)
    ensures
        r@ == joined(base@, part@),
{
    let part_chars = chars_of(part);
    if part_chars.len() > 0 && part_chars[0] == '/' {
        return part.to_owned();
    }
    let base_chars = chars_of(base);
    let mut out = base.to_owned();
    if base_chars.len() > 0 && base_chars[base_chars.len() - 1] != '/' {
        out.push('/');
    }
    out.append(part);
    out
}

/// The last position of `c` in `s`.
pub open spec fn last_position(s: Seq<char>, c: char) -> Option<int>
    decreases s.len(),
{
    if s.len() == 0 {
        None
    } else if s.last() == c {
        Some(s.len() - 1)
    } else {
        last_position(s.drop_last(), c)
    }
}

/// The last position of `c` among `chars[..to]`.
pub fn last_position_before(chars: &Vec<char>, to: usize, c: char) -> (r: Option<usize>)
    requires
        to <= chars@.len(),
    ensures
        r is Some <==> last_position(chars@.take(to as int), c) is Some,
        r matches Some(i) ==> i < to && chars@[i as int] == c && last_position(
            chars@.take(to as int),
            c,
        ) == Some(i as int),
{
    let mut i: usize = to;
    while i > 0
        invariant
            i <= to <= chars@.len(),
            last_position(chars@.take(to as int), c) == last_position(chars@.take(i as int), c),
        decreases i,
    {
        assert(chars@.take(i as int).drop_last() == chars@.take(i - 1));
        if chars[i - 1] == c {
            return Some(i - 1);
        }
        i = i - 1;
    }
    None
}

/// A character that does not come again stands last.
pub proof fn lemma_last_position(s: Seq<char>, c: char, at: int)
    requires
        0 <= at < s.len(),
        s[at] == c,
        forall|i: int| at < i < s.len() ==> s[i] != c,
    ensures
        last_position(s, c) == Some(at),
    decreases s.len(),
{
    if at < s.len() - 1 {
        lemma_last_position(s.drop_last(), c, at);
    }
}

/// A pattern that does not stand before is found where it stands.
pub proof fn lemma_found_at(s: Seq<char>, pattern: Seq<char>, from: int, at: int)
    requires
        0 <= from <= at,
        stands_at(s, pattern, at),
        forall|i: int| from <= i < at ==> !stands_at(s, pattern, i),
    ensures
        find_from(s, pattern, from) == Some(at),
    decreases at - from,
{
    if from < at {
        assert(!stands_at(s, pattern, from));
        lemma_found_at(s, pattern, from + 1, at);
    }
}

/// The text that some bytes encode, none where they are not UTF-8.
pub open spec fn decoded(bytes: Seq<u8>) -> Option<Seq<char>> {
    if vstd::utf8::valid_utf8(bytes) {
        Some(vstd::utf8::decode_utf8(bytes))
    } else {
        None
    }
}

/// `core::str::from_utf8`, with its error dropped: it gives the text that the
/// bytes encode where they are valid UTF-8, and an error where they are not.
#[verifier::external_body]
pub(crate) fn decode(bytes: &Vec<u8>) -> (r: Option<String>)
    ensures
        r.deep_view() == decoded(bytes@),
{
    match core::str::from_utf8(bytes) {
        Ok(s) => Some(s.to_owned()),
        Err(_) => None,
    }
}

/// The bytes before the first zero.
pub open spec fn before_zero(bytes: Seq<u8>) -> Seq<u8>
    decreases bytes.len(),
{
    if bytes.len() == 0 || bytes[0] == 0 {
        Seq::empty()
    } else {
        seq![bytes[0]] + before_zero(bytes.skip(1))
    }
}

/// Where the bytes up to `n` hold no zero and the next one, if any, is zero, they
/// are those before the first zero.
pub proof fn lemma_before_zero(bytes: Seq<u8>, n: int)
    requires
        0 <= n <= bytes.len(),
        forall|i: int| 0 <= i < n ==> bytes[i] != 0,
        n < bytes.len() ==> bytes[n] == 0,
    ensures
        before_zero(bytes) == bytes.take(n),
    decreases bytes.len(),
{
    if n == 0 {
        assert(bytes.take(0) =~= Seq::empty());
    } else {
        lemma_before_zero(bytes.skip(1), n - 1);
        assert(bytes.take(n) =~= seq![bytes[0]] + bytes.skip(1).take(n - 1));
    }
}

/// The text that the bytes before the first zero encode, none where they are not
/// UTF-8.
pub fn decode_before_zero(bytes: &[u8]) -> (r: Option<String>)
    ensures
        r.deep_view() == decoded(before_zero(bytes@)),
{
    decode(&head_before_zero(bytes))
}

/// Does one text stand before another, character by character?
pub open spec fn text_less(a: Seq<char>, b: Seq<char>) -> bool
    decreases a.len(),
{
    if b.len() == 0 {
        false
    } else if a.len() == 0 {
        true
    } else if a[0] != b[0] {
        a[0] < b[0]
    } else {
        text_less(a.skip(1), b.skip(1))
    }
}

/// Of two different texts exactly one stands before the other, and none stands
/// before itself.
pub proof fn text_order_is_total(a: Seq<char>, b: Seq<char>)
    ensures
        a == b ==> !text_less(a, b),
        a != b ==> text_less(a, b) != text_less(b, a),
    decreases a.len(),
{
    if a.len() == 0 && b.len() == 0 {
        assert(a =~= b);
    } else if a.len() > 0 && b.len() > 0 && a[0] == b[0] {
        text_order_is_total(a.skip(1), b.skip(1));
        if a.skip(1) == b.skip(1) {
            assert(a =~= seq![a[0]] + a.skip(1));
            assert(b =~= seq![b[0]] + b.skip(1));
        }
    }
}

/// The order of texts is transitive.
pub proof fn text_order_is_transitive(a: Seq<char>, b: Seq<char>, c: Seq<char>)
    requires
        text_less(a, b),
        text_less(b, c),
    ensures
        text_less(a, c),
    decreases a.len(),
{
    if a.len() > 0 && a[0] == b[0] && b[0] == c[0] {
        text_order_is_transitive(a.skip(1), b.skip(1), c.skip(1));
    }
}

/// Does one text stand before another, character by character?
pub fn less(a: &str, b: &str) -> (r: bool)
    ensures
        r == text_less(a@, b@),
{
    let x = chars_of(a);
    let y = chars_of(b);
    let mut i: usize = 0;
    assert(x@.skip(0) =~= x@);
    assert(y@.skip(0) =~= y@);
    while i < x.len() && i < y.len() && x[i] == y[i]
        invariant
            i <= x.len(),
            i <= y.len(),
            text_less(x@, y@) == text_less(x@.skip(i as int), y@.skip(i as int)),
        decreases x.len() - i,
    {
        assert(x@.skip(i as int).skip(1) =~= x@.skip(i + 1));
        assert(y@.skip(i as int).skip(1) =~= y@.skip(i + 1));
        i = i + 1;
    }
    if i == y.len() {
        false
    } else if i == x.len() {
        true
    } else {
        x[i] < y[i]
    }
}

/// Whether two lists hold the same texts in the same order.
pub fn same_texts(a: &Vec<String>, b: &Vec<String>) -> (r: bool)
    ensures
        r == (a.deep_view() == b.deep_view()),
{
    if a.len() != b.len() {
        assert(a.deep_view().len() != b.deep_view().len());
        return false;
    }
    let mut i: usize = 0;
    while i < a.len()
        invariant
            i <= a.len() == b.len(),
            forall|k: int| 0 <= k < i ==> a.deep_view()[k] == b.deep_view()[k],
        decreases a.len() - i,
    {
        if !same_text(a[i].as_str(), b[i].as_str()) {
            assert(a.deep_view()[i as int] != b.deep_view()[i as int]);
            return false;
        }
        i = i + 1;
    }
    assert(a.deep_view() =~= b.deep_view());
    true
}

/// What `String::from_utf8_lossy` makes of some bytes.
pub uninterp spec fn lossy_text(bytes: Seq<u8>) -> Seq<char>;

/// `String::from_utf8_lossy`: the text that the bytes encode, with U+FFFD in
/// place of what is not UTF-8. What stands where it is not is left to the name.
#[verifier::external_body]
pub(crate) fn decode_lossy(bytes: &Vec<u8>) -> (r: String)
    ensures
        r@ == lossy_text(bytes@),
        vstd::utf8::valid_utf8(bytes@) ==> r@ == vstd::utf8::decode_utf8(bytes@),
{
    String::from_utf8_lossy(bytes).into_owned()
}

/// The bytes before the first zero.
pub fn head_before_zero(bytes: &[u8]) -> (r: Vec<u8>)
    ensures
        r@ == before_zero(bytes@),
{
    let mut head: Vec<u8> = Vec::new();
    let mut i: usize = 0;
    while i < bytes.len() && bytes[i] != 0
        invariant
            i <= bytes@.len(),
            head@ == bytes@.take(i as int),
            forall|k: int| 0 <= k < i ==> bytes@[k] != 0,
        decreases bytes@.len() - i,
    {
        head.push(bytes[i]);
        i = i + 1;
    }
    proof {
        lemma_before_zero(bytes@, i as int);
    }
    head
}

/// A time shows its hours, minutes and seconds, each with at least two digits.
pub proof fn clocks_show_hours_minutes_and_seconds(h: nat, m: nat, s: nat)
    requires
        m < 60,
        s < 60,
    ensures
        clock(3600 * h + 60 * m + s) == two_digits(h) + ":"@ + two_digits(m) + ":"@ + two_digits(s),
        h < 10 ==> two_digits(h) == seq!['0'] + decimal(h),
        h >= 10 ==> two_digits(h) == decimal(h),
{
    let t = 3600 * h + 60 * m + s;
    assert(t / 3600 == h);
    assert(t % 3600 == 60 * m + s);
    assert((60 * m + s) / 60 == m);
    assert(t % 60 == s);
    if h < 10 {
        assert(decimal(h).len() == 1);
        assert(two_digits(h) =~= seq!['0'] + decimal(h));
    } else {
        lemma_long_numeral(h);
    }
}

/// A number of at least ten has more than one digit.
proof fn lemma_long_numeral(n: nat)
    requires
        n >= 10,
    ensures
        decimal(n).len() >= 2,
{
    decimal_reads_back(n / 10);
}

/// A padded text is at least as wide as asked; it ends with the text, and only the
/// filling stands before. What is wide enough stays as it is.
pub proof fn padding_fills_up_to_the_width(s: Seq<char>, width: nat, fill: char, i: int)
    ensures
        s.len() >= width ==> padded(s, width, fill) == s,
        s.len() < width ==> padded(s, width, fill).len() == width,
        padded(s, width, fill).skip(padded(s, width, fill).len() - s.len()) == s,
        0 <= i < width - s.len() ==> padded(s, width, fill)[i] == fill,
{
    assert(padded(s, width, fill).skip(padded(s, width, fill).len() - s.len()) =~= s);
}

/// A number that is not too large is read from its numeral, with a plus sign before
/// it or without; a text with another character behind the first is refused.
pub proof fn numbers_are_read_from_their_numerals(n: nat, max: nat, s: Seq<char>, i: int)
    ensures
        n <= max ==> parse_number(decimal(n), max) == Some(n),
        n <= max ==> parse_number(seq!['+'] + decimal(n), max) == Some(n),
        n > max ==> parse_number(decimal(n), max) is None,
        1 <= i < s.len() && !('0' <= s[i] && s[i] <= '9') ==> parse_number(s, max) is None,
        s.len() == 0 ==> parse_number(s, max) is None,
{
    decimal_reads_back(n);
    let d = decimal(n);
    assert(is_digit(d[0]));
    let signed = seq!['+'] + d;
    assert(signed.skip(1) =~= d);
    if 1 <= i < s.len() && !('0' <= s[i] && s[i] <= '9') {
        assert(!is_digit(s[i]));
        assert(s.skip(1)[i - 1] == s[i]);
    }
}

/// Trimming keeps a stretch of the text: only white space is left out before and
/// behind it, and it neither starts nor ends with any.
pub proof fn trimming_cuts_white_space_at_the_ends(s: Seq<char>) -> (r: (int, int))
    ensures
        0 <= r.0 <= r.1 <= s.len(),
        trim(s) == s.subrange(r.0, r.1),
        forall|i: int| 0 <= i < r.0 || r.1 <= i < s.len() ==> is_white(#[trigger] s[i]),
        trim(s).len() > 0 ==> !is_white(trim(s)[0]) && !is_white(trim(s).last()),
{
    let from = lemma_skipped_white(s, 0);
    let rest = s.skip(from);
    let n = lemma_trimmed_end(rest);
    assert(trim(s) =~= s.subrange(from, from + n));
    assert forall|i: int| 0 <= i < from || from + n <= i < s.len() implies is_white(
        #[trigger] s[i],
    ) by {
        if i >= from + n {
            assert(rest[i - from] == s[i]);
        }
    }
    (from, from + n)
}

proof fn lemma_skipped_white(s: Seq<char>, i: int) -> (r: int)
    requires
        0 <= i <= s.len(),
    ensures
        r == skip_white(s, i),
        i <= r <= s.len(),
        forall|k: int| i <= k < r ==> is_white(#[trigger] s[k]),
        r < s.len() ==> !is_white(s[r]),
    decreases s.len() - i,
{
    if i < s.len() && is_white(s[i]) {
        lemma_skipped_white(s, i + 1)
    } else {
        i
    }
}

proof fn lemma_trimmed_end(s: Seq<char>) -> (n: int)
    ensures
        0 <= n <= s.len(),
        trim_end(s) == s.take(n),
        forall|k: int| n <= k < s.len() ==> is_white(#[trigger] s[k]),
        n > 0 ==> !is_white(s[n - 1]),
    decreases s.len(),
{
    if s.len() > 0 && is_white(s.last()) {
        let n = lemma_trimmed_end(s.drop_last());
        assert(s.drop_last().take(n) =~= s.take(n));
        assert forall|k: int| n <= k < s.len() implies is_white(#[trigger] s[k]) by {
            if k < s.len() - 1 {
                assert(s.drop_last()[k] == s[k]);
            }
        }
        n
    } else {
        assert(s.take(s.len() as int) =~= s);
        s.len() as int
    }
}

/// Of the ASCII characters, the space and those from tab through carriage return are
/// white space.
pub proof fn ascii_white_space(c: char)
    requires
        (c as u32) < 0x80,
    ensures
        is_white(c) <==> c == ' ' || 0x9 <= c as u32 <= 0xD,
{
}

/// Splitting cuts at each separator: a text without one is a single piece, and the
/// pieces of two texts around a separator are those of the first, then those of the
/// second.
pub proof fn splitting_cuts_at_separators(a: Seq<char>, sep: char, b: Seq<char>)
    ensures
        !a.contains(sep) ==> split_on(a, sep) == seq![a],
        split_on(a.push(sep) + b, sep) == split_on(a, sep) + split_on(b, sep),
{
    if !a.contains(sep) {
        lemma_single_piece(a, sep);
    }
    lemma_pieces_add_up(a, sep, b);
}

proof fn lemma_single_piece(a: Seq<char>, sep: char)
    requires
        !a.contains(sep),
    ensures
        split_on(a, sep) == seq![a],
    decreases a.len(),
{
    if a.len() == 0 {
        assert(a =~= Seq::empty());
    } else {
        let before = a.drop_last();
        assert(a[a.len() - 1] == a.last());
        assert(!before.contains(sep)) by {
            if before.contains(sep) {
                let k = choose|k: int| 0 <= k < before.len() && before[k] == sep;
                assert(a[k] == sep);
            }
        }
        lemma_single_piece(before, sep);
        assert(before.push(a.last()) =~= a);
        assert(split_on(a, sep) =~= seq![a]);
    }
}

proof fn lemma_pieces_add_up(a: Seq<char>, sep: char, b: Seq<char>)
    ensures
        split_on(b, sep).len() > 0,
        split_on(a.push(sep) + b, sep) == split_on(a, sep) + split_on(b, sep),
    decreases b.len(),
{
    let s = a.push(sep) + b;
    if b.len() == 0 {
        assert(s.drop_last() =~= a);
        assert(split_on(s, sep) =~= split_on(a, sep) + split_on(b, sep));
    } else {
        lemma_pieces_add_up(a, sep, b.drop_last());
        assert(s.drop_last() =~= a.push(sep) + b.drop_last());
        assert(s.last() == b.last());
        let first = split_on(a, sep);
        let second = split_on(b.drop_last(), sep);
        assert((first + second).last() == second.last());
        assert((first + second).drop_last() =~= first + second.drop_last());
        assert(split_on(s, sep) =~= first + split_on(b, sep));
    }
}

/// A path is continued behind a slash, of which there is one only; an absolute path
/// stands for itself, and an empty one is continued without a slash.
pub proof fn paths_are_continued_behind_a_slash(base: Seq<char>, part: Seq<char>)
    ensures
        part.len() > 0 && part[0] == '/' ==> joined(base, part) == part,
        part.len() == 0 || part[0] != '/' ==> {
            &&& base.len() == 0 ==> joined(base, part) == part
            &&& joined(base.push('/'), part) == base.push('/') + part
            &&& base.len() > 0 && base.last() != '/' ==> joined(base, part) == base.push('/') + part
        },
{
    assert(Seq::<char>::empty() + part =~= part);
    if base.len() == 0 {
        assert(base =~= Seq::empty());
    }
}

/// Texts are ordered by the first character in which they differ; of two that do not
/// differ where both have characters, the shorter comes first.
pub proof fn the_first_difference_orders(
    common: Seq<char>,
    x: char,
    a: Seq<char>,
    y: char,
    b: Seq<char>,
)
    ensures
        text_less(common + (seq![x] + a), common + (seq![y] + b)) <== x < y,
        text_less(common, common.push(x) + a),
        !text_less(common, common),
    decreases common.len(),
{
    let s = common + (seq![x] + a);
    let t = common + (seq![y] + b);
    let longer = common.push(x) + a;
    if common.len() > 0 {
        let rest = common.skip(1);
        the_first_difference_orders(rest, x, a, y, b);
        assert(s.skip(1) =~= rest + (seq![x] + a));
        assert(t.skip(1) =~= rest + (seq![y] + b));
        assert(longer.skip(1) =~= rest.push(x) + a);
    }
}

/// A number in base 16 is written with the digits `0` to `9` and `a` to `f`, the last
/// for its remainder and those before for the rest; a single one where that is enough.
pub proof fn hexadecimal_digits(n: nat, d: nat)
    requires
        d < 16,
    ensures
        d < 10 ==> hexadecimal(d) == seq![(48 + d) as char],
        d >= 10 ==> hexadecimal(d) == seq![(87 + d) as char],
        n > 0 ==> hexadecimal(16 * n + d) == hexadecimal(n) + hexadecimal(d),
{
    if n > 0 {
        let m = 16 * n + d;
        assert(m / 16 == n && m % 16 == d);
        assert(hexadecimal(n).push(hex_char(d as int)) =~= hexadecimal(n) + seq![
            hex_char(d as int),
        ]);
    }
}

/// A number in base 10 is written with the digits `0` to `9`, the last for its
/// remainder and those before for the rest; a single one where that is enough.
pub proof fn decimal_digits(n: nat, d: nat)
    requires
        d < 10,
    ensures
        decimal(d) == seq![(48 + d) as char],
        n > 0 ==> decimal(10 * n + d) == decimal(n) + decimal(d),
{
    if n > 0 {
        let m = 10 * n + d;
        assert(m / 10 == n && m % 10 == d);
        assert(decimal(n).push(digit_char(d as int)) =~= decimal(n) + seq![digit_char(d as int)]);
    }
}

/// A text that holds a pattern is searched from the front: what is found is the
/// pattern, and it stands no later than any other place that holds it.
pub proof fn patterns_are_found(before: Seq<char>, pattern: Seq<char>, rest: Seq<char>)
    ensures
        ({
            let s = before + pattern + rest;
            &&& find_from(s, pattern, 0) matches Some(i)
            &&& 0 <= i <= before.len()
            &&& s.subrange(i, i + pattern.len()) == pattern
        }),
{
    let s = before + pattern + rest;
    assert(s.subrange(before.len() as int, before.len() as int + pattern.len()) =~= pattern);
    lemma_found_before(s, pattern, 0, before.len() as int);
}

proof fn lemma_found_before(s: Seq<char>, pattern: Seq<char>, from: int, at: int)
    requires
        0 <= from <= at,
        at + pattern.len() <= s.len(),
        s.subrange(at, at + pattern.len()) == pattern,
    ensures
        find_from(s, pattern, from) matches Some(i) && from <= i <= at && s.subrange(
            i,
            i + pattern.len(),
        ) == pattern,
    decreases at - from,
{
    if from < at && !stands_at(s, pattern, from) {
        lemma_found_before(s, pattern, from + 1, at);
    }
}

/// A negative number has a minus sign; a plus sign stands before others only where
/// the sign is always shown.
pub proof fn signs_stand_before_numbers(n: nat)
    ensures
        integer_text(n as int) == decimal(n),
        signed_decimal(n as int) == "+"@ + decimal(n),
        n > 0 ==> integer_text(-(n as int)) == "-"@ + decimal(n),
        n > 0 ==> signed_decimal(-(n as int)) == "-"@ + decimal(n),
{
}

/// Of the other characters, these are white space: the next line, the no-break
/// spaces, the spaces of several widths, and the line and paragraph separators.
pub proof fn other_white_space(c: char)
    requires
        c as u32 >= 0x80,
    ensures
        is_white(c) <==> c as u32 == 0x85 || c as u32 == 0xA0 || c as u32 == 0x1680 || 0x2000
            <= c as u32 <= 0x200A || 0x2028 <= c as u32 <= 0x2029 || c as u32 == 0x202F || c as u32
            == 0x205F || c as u32 == 0x3000,
{
}

/// Bytes are taken up to the first zero byte, whatever follows it.
pub proof fn texts_end_at_the_first_zero(name: Seq<u8>, rest: Seq<u8>)
    requires
        !name.contains(0u8),
    ensures
        before_zero(name.push(0u8) + rest) == name,
    decreases name.len(),
{
    let s = name.push(0u8) + rest;
    if name.len() > 0 {
        let tail = name.skip(1);
        assert(!tail.contains(0u8)) by {
            if tail.contains(0u8) {
                let k = choose|k: int| 0 <= k < tail.len() && tail[k] == 0;
                assert(name[k + 1] == 0);
            }
        }
        assert(name[0] != 0);
        texts_end_at_the_first_zero(tail, rest);
        assert(s.skip(1) =~= tail.push(0u8) + rest);
        assert(seq![name[0]] + tail =~= name);
    } else {
        assert(name =~= Seq::empty());
    }
}

} // verus!
