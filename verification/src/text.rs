//! Character-level text handling used by the packet parsers and the
//! progress messages: splitting on separators, decimal and hexadecimal
//! rendering, and parsing of unsigned integers with the standard library's
//! rules.
use vstd::prelude::*;

verus! {

// ------------------------------------------------------------------
// Strings as sequences of characters
// ------------------------------------------------------------------

/// The characters of a string slice, in order.
pub fn chars_of(s: &str) -> (v: Vec<char>)
    ensures
        v@ == s@,
{
    let mut v: Vec<char> = Vec::new();
    let ghost full = s@;
    for c in it: s.chars()
        invariant
            full == s@,
            it.seq() == s@,
            v@ == it.seq().take(it.index() as int),
    {
        v.push(c);
    }
    v
}

/// `String::push`: appends one character.
#[verifier::external_body]
pub(crate) fn push_char(s: &mut String, c: char)
    ensures
        final(s)@ == old(s)@.push(c),
{
    s.push(c);
}

/// Builds a `String` holding exactly the given characters.
pub fn string_from_chars(cs: &Vec<char>) -> (s: String)
    ensures
        s@ == cs@,
{
    let mut s = String::new();
    let mut i: usize = 0;
    while i < cs.len()
        invariant
            i <= cs.len(),
            s@ == cs@.take(i as int),
        decreases cs.len() - i,
    {
        push_char(&mut s, cs[i]);
        proof {
            assert(cs@.take(i as int).push(cs@[i as int]) =~= cs@.take(i + 1));
        }
        i += 1;
    }
    proof {
        assert(cs@.take(cs@.len() as int) =~= cs@);
    }
    s
}

/// Appends all characters of `src` to `dst`.
pub fn append_chars(dst: &mut Vec<char>, src: &Vec<char>)
    ensures
        final(dst)@ == old(dst)@ + src@,
{
    let mut i: usize = 0;
    while i < src.len()
        invariant
            i <= src.len(),
            dst@ == old(dst)@ + src@.take(i as int),
        decreases src.len() - i,
    {
        dst.push(src[i]);
        proof {
            assert(old(dst)@ + src@.take(i + 1) =~= (old(dst)@ + src@.take(i as int)).push(
                src@[i as int],
            ));
        }
        i += 1;
    }
    proof {
        assert(src@.take(src@.len() as int) =~= src@);
    }
}

/// Appends the characters of a string slice to `dst`.
pub fn append_str(dst: &mut Vec<char>, src: &str)
    ensures
        final(dst)@ == old(dst)@ + src@,
{
    let cs = chars_of(src);
    append_chars(dst, &cs);
}

/// Whether two character sequences are equal.
pub fn chars_equal(a: &Vec<char>, b: &Vec<char>) -> (r: bool)
    ensures
        r == (a@ == b@),
{
    if a.len() != b.len() {
        return false;
    }
    let mut i: usize = 0;
    while i < a.len()
        invariant
            i <= a.len(),
            a.len() == b.len(),
            forall|k: int| 0 <= k < i ==> a@[k] == b@[k],
        decreases a.len() - i,
    {
        if a[i] != b[i] {
            return false;
        }
        i += 1;
    }
    proof {
        assert(a@ =~= b@);
    }
    true
}

/// Whether `s` begins with `prefix`.
pub fn starts_with_chars(s: &Vec<char>, prefix: &Vec<char>) -> (r: bool)
    ensures
        r == (prefix@.len() <= s@.len() && s@.take(prefix@.len() as int) == prefix@),
{
    if prefix.len() > s.len() {
        return false;
    }
    let mut i: usize = 0;
    while i < prefix.len()
        invariant
            i <= prefix.len(),
            prefix.len() <= s.len(),
            forall|k: int| 0 <= k < i ==> s@[k] == prefix@[k],
        decreases prefix.len() - i,
    {
        if s[i] != prefix[i] {
            proof {
                assert(s@.take(prefix@.len() as int)[i as int] != prefix@[i as int]);
            }
            return false;
        }
        i += 1;
    }
    proof {
        assert(s@.take(prefix@.len() as int) =~= prefix@);
    }
    true
}

/// Whether `s` holds the character `c`.
pub fn contains_char(s: &Vec<char>, c: char) -> (r: bool)
    ensures
        r == s@.contains(c),
{
    let mut i: usize = 0;
    while i < s.len()
        invariant
            i <= s.len(),
            forall|k: int| 0 <= k < i ==> s@[k] != c,
        decreases s.len() - i,
    {
        if s[i] == c {
            proof {
                assert(s@[i as int] == c);
            }
            return true;
        }
        i += 1;
    }
    false
}

// ------------------------------------------------------------------
// Splitting and joining
// ------------------------------------------------------------------

/// The pieces completed, and the piece being read, after scanning the
/// first `n` characters of `s` for the separator `sep`.
pub open spec fn split_state(s: Seq<char>, sep: char, n: nat) -> (Seq<Seq<char>>, Seq<char>)
    decreases n,
{
    if n == 0 {
        (Seq::empty(), Seq::empty())
    } else {
        let (done, cur) = split_state(s, sep, (n - 1) as nat);
        if s[n - 1] == sep {
            (done.push(cur), Seq::empty())
        } else {
            (done, cur.push(s[n - 1]))
        }
    }
}

/// `s` cut at every occurrence of `sep`, as `str::split` does: `k`
/// separators give `k + 1` pieces, empty pieces included.
pub open spec fn split_on(s: Seq<char>, sep: char) -> Seq<Seq<char>> {
    let (done, cur) = split_state(s, sep, s.len());
    done.push(cur)
}

/// The views of a sequence of character vectors.
pub open spec fn views(v: Seq<Vec<char>>) -> Seq<Seq<char>> {
    v.map_values(|p: Vec<char>| p@)
}

/// Splits `s` at every occurrence of `sep`.
pub fn split_chars(s: &Vec<char>, sep: char) -> (parts: Vec<Vec<char>>)
    ensures
        views(parts@) == split_on(s@, sep),
{
    let mut done: Vec<Vec<char>> = Vec::new();
    let mut cur: Vec<char> = Vec::new();
    let mut i: usize = 0;
    while i < s.len()
        invariant
            i <= s.len(),
            (views(done@), cur@) == split_state(s@, sep, i as nat),
        decreases s.len() - i,
    {
        let c = s[i];
        if c == sep {
            let piece = cur;
            cur = Vec::new();
            done.push(piece);
            proof {
                assert(views(done@) =~= split_state(s@, sep, i as nat).0.push(piece@));
            }
        } else {
            cur.push(c);
        }
        i += 1;
    }
    done.push(cur);
    proof {
        assert(views(done@) =~= split_on(s@, sep));
    }
    done
}

/// Index of the first occurrence of `c` in `s` at or after `from`, or
/// `s.len()` when there is none.
pub open spec fn first_index_from(s: Seq<char>, c: char, from: int) -> int
    decreases s.len() - from,
{
    if from >= s.len() || from < 0 {
        s.len() as int
    } else if s[from] == c {
        from
    } else {
        first_index_from(s, c, from + 1)
    }
}

/// `s` split at its first `sep` into the text before and the text after,
/// as `str::splitn(2, sep)` yields two pieces; `None` when `sep` does not
/// occur.
pub open spec fn split_once(s: Seq<char>, sep: char) -> Option<(Seq<char>, Seq<char>)> {
    let k = first_index_from(s, sep, 0);
    if k < s.len() {
        Some((s.take(k), s.skip(k + 1)))
    } else {
        None
    }
}

proof fn lemma_first_index_from(s: Seq<char>, c: char, from: int)
    requires
        0 <= from <= s.len(),
    ensures
        from <= first_index_from(s, c, from) <= s.len(),
        forall|k: int| from <= k < first_index_from(s, c, from) ==> s[k] != c,
        first_index_from(s, c, from) < s.len() ==> s[first_index_from(s, c, from)] == c,
    decreases s.len() - from,
{
    if from < s.len() && s[from] != c {
        lemma_first_index_from(s, c, from + 1);
    }
}

/// Splits `s` at its first `sep`.
pub fn split_once_chars(s: &Vec<char>, sep: char) -> (r: Option<(Vec<char>, Vec<char>)>)
    ensures
        match r {
            Some((a, b)) => split_once(s@, sep) == Some((a@, b@)),
            None => split_once(s@, sep) is None,
        },
{
    proof {
        lemma_first_index_from(s@, sep, 0);
    }
    let mut i: usize = 0;
    while i < s.len()
        invariant
            i <= s.len(),
            forall|k: int| 0 <= k < i ==> s@[k] != sep,
        decreases s.len() - i,
    {
        if s[i] == sep {
            let mut a: Vec<char> = Vec::new();
            let mut b: Vec<char> = Vec::new();
            let mut j: usize = 0;
            while j < i
                invariant
                    j <= i,
                    i < s.len(),
                    a@ == s@.take(j as int),
                decreases i - j,
            {
                a.push(s[j]);
                proof {
                    assert(s@.take(j as int).push(s@[j as int]) =~= s@.take(j + 1));
                }
                j += 1;
            }
            j = i + 1;
            while j < s.len()
                invariant
                    i < j <= s.len(),
                    b@ == s@.subrange(i + 1, j as int),
                decreases s.len() - j,
            {
                b.push(s[j]);
                proof {
                    assert(s@.subrange(i + 1, j as int).push(s@[j as int]) =~= s@.subrange(
                        i + 1,
                        j + 1,
                    ));
                }
                j += 1;
            }
            proof {
                lemma_first_index_from(s@, sep, 0);
                assert(first_index_from(s@, sep, 0) == i) by {
                    if first_index_from(s@, sep, 0) < i {
                        assert(s@[first_index_from(s@, sep, 0)] == sep);
                    }
                }
                assert(b@ =~= s@.skip(i + 1));
            }
            return Some((a, b));
        }
        i += 1;
    }
    None
}

/// The pieces of `parts` put back together with `sep` between them.
pub open spec fn join_on(parts: Seq<Seq<char>>, sep: char) -> Seq<char>
    decreases parts.len(),
{
    if parts.len() == 0 {
        Seq::empty()
    } else if parts.len() == 1 {
        parts[0]
    } else {
        join_on(parts.drop_last(), sep).push(sep) + parts.last()
    }
}

/// Joins `parts[from..]` with `sep`, as `parts[from..].join(sep)` does.
pub fn join_from(parts: &Vec<Vec<char>>, from: usize, sep: char) -> (r: Vec<char>)
    requires
        from <= parts.len(),
    ensures
        r@ == join_on(views(parts@).skip(from as int), sep),
{
    let mut r: Vec<char> = Vec::new();
    let mut i: usize = from;
    while i < parts.len()
        invariant
            from <= i <= parts.len(),
            r@ == join_on(views(parts@).subrange(from as int, i as int), sep),
        decreases parts.len() - i,
    {
        let ghost before = r@;
        if i > from {
            r.push(sep);
        }
        append_chars(&mut r, &parts[i]);
        proof {
            let prev = views(parts@).subrange(from as int, i as int);
            let next = views(parts@).subrange(from as int, i + 1);
            assert(next.drop_last() =~= prev);
            assert(next.last() == parts@[i as int]@);
            if i == from {
                assert(next.len() == 1);
            }
        }
        i += 1;
    }
    proof {
        assert(views(parts@).subrange(from as int, parts@.len() as int) =~= views(parts@).skip(
            from as int,
        ));
    }
    r
}

// ------------------------------------------------------------------
// Unsigned integers
// ------------------------------------------------------------------

/// Why a text is not an unsigned integer, with the kinds that the standard
/// library reports.
#[derive(Clone, Copy, Debug, PartialEq, Eq, Structural)]
pub enum IntErrorKind {
    Empty,
    InvalidDigit,
    PosOverflow,
}

pub open spec fn is_decimal_digit(c: char) -> bool {
    '0' <= c && c <= '9'
}

pub open spec fn digit_value(c: char) -> nat {
    (c as int - '0' as int) as nat
}

/// Reads decimal digits of `s` from index `i` on, with `acc` the value of
/// the digits before `i`; the first non-digit, or the first digit that
/// takes the value past `max`, ends the reading with an error.
pub open spec fn parse_digits(s: Seq<char>, i: int, acc: nat, max: nat) -> Result<nat, IntErrorKind>
    decreases s.len() - i,
{
    if i >= s.len() || i < 0 {
        Ok(acc)
    } else if !is_decimal_digit(s[i]) {
        Err(IntErrorKind::InvalidDigit)
    } else if acc * 10 + digit_value(s[i]) > max {
        Err(IntErrorKind::PosOverflow)
    } else {
        parse_digits(s, i + 1, acc * 10 + digit_value(s[i]), max)
    }
}

/// The value of `s` as an unsigned integer no larger than `max`, under the
/// rules of `str::parse` for unsigned types: an optional leading `+`, then
/// at least one decimal digit and nothing else.
pub open spec fn parse_unsigned(s: Seq<char>, max: nat) -> Result<nat, IntErrorKind> {
    if s.len() == 0 {
        Err(IntErrorKind::Empty)
    } else {
        let body = if s[0] == '+' {
            s.drop_first()
        } else {
            s
        };
        if body.len() == 0 {
            Err(IntErrorKind::InvalidDigit)
        } else {
            parse_digits(body, 0, 0, max)
        }
    }
}

proof fn lemma_parse_digits_bounded(s: Seq<char>, i: int, acc: nat, max: nat)
    requires
        acc <= max,
    ensures
        parse_digits(s, i, acc, max) matches Ok(v) ==> v <= max,
    decreases s.len() - i,
{
    if 0 <= i < s.len() && is_decimal_digit(s[i]) && acc * 10 + digit_value(s[i]) <= max {
        lemma_parse_digits_bounded(s, i + 1, acc * 10 + digit_value(s[i]), max);
    }
}

/// Parses `s` as an unsigned integer no larger than `max`.
pub fn parse_bounded(s: &Vec<char>, max: u64) -> (r: Result<u64, IntErrorKind>)
    ensures
        match r {
            Ok(v) => parse_unsigned(s@, max as nat) == Ok::<nat, IntErrorKind>(v as nat) && v <= max,
            Err(e) => parse_unsigned(s@, max as nat) == Err::<nat, IntErrorKind>(e),
        },
{
    if s.len() == 0 {
        return Err(IntErrorKind::Empty);
    }
    let start: usize = if s[0] == '+' {
        1
    } else {
        0
    };
    let ghost body = if s@[0] == '+' {
        s@.drop_first()
    } else {
        s@
    };
    proof {
        assert(body =~= s@.skip(start as int));
    }
    if start == s.len() {
        return Err(IntErrorKind::InvalidDigit);
    }
    let mut acc: u64 = 0;
    let mut i: usize = start;
    while i < s.len()
        invariant
            start <= i <= s.len(),
            start < s.len(),
            body =~= s@.skip(start as int),
            body == (if s@[0] == '+' { s@.drop_first() } else { s@ }),
            acc <= max,
            parse_digits(body, 0, 0, max as nat) == parse_digits(
                body,
                i - start,
                acc as nat,
                max as nat,
            ),
        decreases s.len() - i,
    {
        let c = s[i];
        proof {
            assert(body[i - start] == c);
        }
        if !('0' <= c && c <= '9') {
            proof {
                assert(!is_decimal_digit(body[i - start]));
                assert(parse_digits(body, i - start, acc as nat, max as nat) == Err::<nat, IntErrorKind>(IntErrorKind::InvalidDigit));
                assert(body.len() > 0);
                assert(parse_unsigned(s@, max as nat) == parse_digits(body, 0, 0, max as nat));
            }
            return Err(IntErrorKind::InvalidDigit);
        }
        let d: u64 = (c as u32 - '0' as u32) as u64;
        assert(d == digit_value(c));
        if d > max {
            return Err(IntErrorKind::PosOverflow);
        }
        if acc > (max - d) / 10 {
            proof {
                assert(acc * 10 + d > max) by (nonlinear_arith)
                    requires
                        acc > (max - d) / 10,
                        d <= max,
                ;
            }
            return Err(IntErrorKind::PosOverflow);
        }
        proof {
            assert(acc * 10 + d <= max) by (nonlinear_arith)
                requires
                    acc <= (max - d) / 10,
                    d <= 9,
            ;
        }
        acc = acc * 10 + d;
        i += 1;
    }
    proof {
        assert(parse_digits(body, i - start, acc as nat, max as nat) == Ok::<nat, IntErrorKind>(
            acc as nat,
        ));
    }
    Ok(acc)
}

/// `str::parse::<usize>` on the characters of `s`.
pub fn parse_usize(s: &Vec<char>) -> (r: Result<usize, IntErrorKind>)
    ensures
        match r {
            Ok(v) => parse_unsigned(s@, usize::MAX as nat) == Ok::<nat, IntErrorKind>(v as nat),
            Err(e) => parse_unsigned(s@, usize::MAX as nat) == Err::<nat, IntErrorKind>(e),
        },
{
    match parse_bounded(s, usize::MAX as u64) {
        Ok(v) => Ok(v as usize),
        Err(e) => Err(e),
    }
}

/// `str::parse::<u64>` on the characters of `s`.
pub fn parse_u64(s: &Vec<char>) -> (r: Result<u64, IntErrorKind>)
    ensures
        match r {
            Ok(v) => parse_unsigned(s@, u64::MAX as nat) == Ok::<nat, IntErrorKind>(v as nat),
            Err(e) => parse_unsigned(s@, u64::MAX as nat) == Err::<nat, IntErrorKind>(e),
        },
{
    parse_bounded(s, u64::MAX)
}

/// The text that the standard library displays for each kind of parse error.
pub open spec fn int_error_text(e: IntErrorKind) -> Seq<char> {
    match e {
        IntErrorKind::Empty => "cannot parse integer from empty string"@,
        IntErrorKind::InvalidDigit => "invalid digit found in string"@,
        IntErrorKind::PosOverflow => "number too large to fit in target type"@,
    }
}

/// The displayed text of a parse error.
pub fn int_error_message(e: IntErrorKind) -> (r: String)
    ensures
        r@ == int_error_text(e),
{
    match e {
        IntErrorKind::Empty => String::from_str("cannot parse integer from empty string"),
        IntErrorKind::InvalidDigit => String::from_str("invalid digit found in string"),
        IntErrorKind::PosOverflow => String::from_str("number too large to fit in target type"),
    }
}

// ------------------------------------------------------------------
// Rendering numbers
// ------------------------------------------------------------------

/// The character of a digit below sixteen, lower-case for ten and above.
pub open spec fn digit_char(d: nat) -> char {
    if d < 10 {
        (('0' as int) + d) as char
    } else {
        (('a' as int) + d - 10) as char
    }
}

/// `n` in base ten, without leading zeros (`"0"` for zero).
pub open spec fn decimal(n: nat) -> Seq<char>
    decreases n,
{
    if n < 10 {
        seq![digit_char(n)]
    } else {
        decimal(n / 10).push(digit_char(n % 10))
    }
}

/// `n` in base sixteen with lower-case digits, without leading zeros.
pub open spec fn hex(n: nat) -> Seq<char>
    decreases n,
{
    if n < 16 {
        seq![digit_char(n)]
    } else {
        hex(n / 16).push(digit_char(n % 16))
    }
}

/// `s` padded on the left with `'0'` up to `width` characters.
pub open spec fn zero_padded(s: Seq<char>, width: nat) -> Seq<char> {
    if s.len() >= width {
        s
    } else {
        Seq::new((width - s.len()) as nat, |_k: int| '0') + s
    }
}

/// Each byte as two lower-case hexadecimal digits, in order.
pub open spec fn hex_bytes(bs: Seq<u8>) -> Seq<char>
    decreases bs.len(),
{
    if bs.len() == 0 {
        Seq::empty()
    } else {
        hex_bytes(bs.drop_last()) + seq![
            digit_char((bs.last() / 16) as nat),
            digit_char((bs.last() % 16) as nat),
        ]
    }
}

fn digit_to_char(d: u64) -> (c: char)
    requires
        d < 16,
    ensures
        c == digit_char(d as nat),
{
    match d {
        0 => '0',
        1 => '1',
        2 => '2',
        3 => '3',
        4 => '4',
        5 => '5',
        6 => '6',
        7 => '7',
        8 => '8',
        9 => '9',
        10 => 'a',
        11 => 'b',
        12 => 'c',
        13 => 'd',
        14 => 'e',
        _ => 'f',
    }
}

/// `n` in base ten.
pub fn decimal_chars(n: u64) -> (r: Vec<char>)
    ensures
        r@ == decimal(n as nat),
    decreases n,
{
    if n < 10 {
        let mut v: Vec<char> = Vec::new();
        v.push(digit_to_char(n));
        proof {
            assert(v@ =~= seq![digit_char(n as nat)]);
        }
        v
    } else {
        let mut v = decimal_chars(n / 10);
        v.push(digit_to_char(n % 10));
        v
    }
}

/// `n` in base sixteen, lower case.
pub fn hex_chars(n: u64) -> (r: Vec<char>)
    ensures
        r@ == hex(n as nat),
    decreases n,
{
    if n < 16 {
        let mut v: Vec<char> = Vec::new();
        v.push(digit_to_char(n));
        proof {
            assert(v@ =~= seq![digit_char(n as nat)]);
        }
        v
    } else {
        let mut v = hex_chars(n / 16);
        v.push(digit_to_char(n % 16));
        v
    }
}

/// Appends `n` in base ten to `dst`.
pub fn push_decimal(dst: &mut Vec<char>, n: u64)
    ensures
        final(dst)@ == old(dst)@ + decimal(n as nat),
{
    let d = decimal_chars(n);
    append_chars(dst, &d);
}

/// Appends `n` in base ten, padded with zeros to `width` characters, as
/// the format `{:0width$}` does.
pub fn push_zero_padded(dst: &mut Vec<char>, n: u64, width: usize)
    ensures
        final(dst)@ == old(dst)@ + zero_padded(decimal(n as nat), width as nat),
{
    let d = decimal_chars(n);
    let ghost before = dst@;
    if d.len() < width {
        let mut k: usize = 0;
        while k < width - d.len()
            invariant
                d.len() < width,
                k <= width - d.len(),
                dst@ == before + Seq::new(k as nat, |_i: int| '0'),
            decreases width - d.len() - k,
        {
            dst.push('0');
            proof {
                assert(before + Seq::new((k + 1) as nat, |_i: int| '0') =~= (before + Seq::new(
                    k as nat,
                    |_i: int| '0',
                )).push('0'));
            }
            k += 1;
        }
    }
    append_chars(dst, &d);
    proof {
        if d@.len() < width {
            assert(dst@ =~= before + zero_padded(decimal(n as nat), width as nat));
        }
    }
}

/// The bytes of `bs` as lower-case hexadecimal pairs.
pub fn hex_byte_chars(bs: &Vec<u8>) -> (r: Vec<char>)
    ensures
        r@ == hex_bytes(bs@),
{
    let mut r: Vec<char> = Vec::new();
    let mut i: usize = 0;
    while i < bs.len()
        invariant
            i <= bs.len(),
            r@ == hex_bytes(bs@.take(i as int)),
        decreases bs.len() - i,
    {
        let b = bs[i];
        r.push(digit_to_char((b / 16) as u64));
        r.push(digit_to_char((b % 16) as u64));
        proof {
            let t = bs@.take(i + 1);
            assert(t.drop_last() =~= bs@.take(i as int));
            assert(t.last() == b);
            assert(r@ =~= hex_bytes(t));
        }
        i += 1;
    }
    proof {
        assert(bs@.take(bs@.len() as int) =~= bs@);
    }
    r
}

// ------------------------------------------------------------------
// Words
// ------------------------------------------------------------------

/// The characters with the Unicode `White_Space` property, which
/// `char::is_whitespace` recognises.
pub open spec fn is_space(c: char) -> bool {
    ||| '\t' <= c && c <= '\r'
    ||| c == ' '
    ||| c == '\u{85}'
    ||| c == '\u{a0}'
    ||| c == '\u{1680}'
    ||| '\u{2000}' <= c && c <= '\u{200a}'
    ||| c == '\u{2028}'
    ||| c == '\u{2029}'
    ||| c == '\u{202f}'
    ||| c == '\u{205f}'
    ||| c == '\u{3000}'
}

/// Whether `c` is white space.
pub fn space_char(c: char) -> (r: bool)
    ensures
        r == is_space(c),
{
    ('\t' <= c && c <= '\r') || c == ' ' || c == '\u{85}' || c == '\u{a0}' || c == '\u{1680}' || ('\u{2000}'
        <= c && c <= '\u{200a}') || c == '\u{2028}' || c == '\u{2029}' || c == '\u{202f}' || c == '\u{205f}'
        || c == '\u{3000}'
}

/// The length of `s` once trailing white space is dropped, looking at the
/// first `n` characters.
pub open spec fn trimmed_len(s: Seq<char>, n: nat) -> nat
    decreases n,
{
    if n == 0 {
        0
    } else if is_space(s[n - 1]) {
        trimmed_len(s, (n - 1) as nat)
    } else {
        n
    }
}

/// Where the word that ends at `n` begins.
pub open spec fn word_start(s: Seq<char>, n: nat) -> nat
    decreases n,
{
    if n == 0 {
        0
    } else if is_space(s[n - 1]) {
        n
    } else {
        word_start(s, (n - 1) as nat)
    }
}

/// The last word of `s`, as the last item of `str::split_whitespace`
/// gives it, or `None` when `s` is all white space.
pub open spec fn last_word(s: Seq<char>) -> Option<Seq<char>> {
    let end = trimmed_len(s, s.len());
    if end == 0 {
        None
    } else {
        Some(s.subrange(word_start(s, end) as int, end as int))
    }
}

proof fn lemma_trimmed_len_bound(s: Seq<char>, n: nat)
    requires
        n <= s.len(),
    ensures
        trimmed_len(s, n) <= n,
        trimmed_len(s, n) > 0 ==> !is_space(s[trimmed_len(s, n) - 1]),
    decreases n,
{
    if n > 0 && is_space(s[n - 1]) {
        lemma_trimmed_len_bound(s, (n - 1) as nat);
    }
}

proof fn lemma_word_start_bound(s: Seq<char>, n: nat)
    ensures
        word_start(s, n) <= n,
    decreases n,
{
    if n > 0 && !is_space(s[n - 1]) {
        lemma_word_start_bound(s, (n - 1) as nat);
    }
}

/// The last word of `s`.
pub fn last_word_chars(s: &Vec<char>) -> (r: Option<Vec<char>>)
    ensures
        match (r, last_word(s@)) {
            (Some(w), Some(v)) => w@ == v,
            (None, None) => true,
            _ => false,
        },
{
    let mut end: usize = s.len();
    while end > 0 && space_char(s[end - 1])
        invariant
            end <= s@.len(),
            trimmed_len(s@, s@.len() as nat) == trimmed_len(s@, end as nat),
        decreases end,
    {
        end -= 1;
    }
    if end == 0 {
        return None;
    }
    let mut start: usize = end;
    while start > 0 && !space_char(s[start - 1])
        invariant
            start <= end,
            end <= s@.len(),
            word_start(s@, end as nat) == word_start(s@, start as nat),
        decreases start,
    {
        start -= 1;
    }
    let mut w: Vec<char> = Vec::new();
    let mut k: usize = start;
    while k < end
        invariant
            start <= k <= end,
            end <= s@.len(),
            w@ == s@.subrange(start as int, k as int),
        decreases end - k,
    {
        w.push(s[k]);
        proof {
            assert(s@.subrange(start as int, k + 1) =~= s@.subrange(start as int, k as int).push(s@[k as int]));
        }
        k += 1;
    }
    Some(w)
}

/// `s` without its commas.
pub open spec fn without_commas(s: Seq<char>) -> Seq<char> {
    s.filter(|c: char| c != ',')
}

/// Drops the commas of `s`.
pub fn drop_commas(s: &Vec<char>) -> (r: Vec<char>)
    ensures
        r@ == without_commas(s@),
{
    let mut r: Vec<char> = Vec::new();
    let mut i: usize = 0;
    while i < s.len()
        invariant
            i <= s@.len(),
            r@ == without_commas(s@.take(i as int)),
        decreases s.len() - i,
    {
        proof {
            assert(s@.take(i + 1).drop_last() =~= s@.take(i as int));
            reveal(Seq::filter);
        }
        if s[i] != ',' {
            r.push(s[i]);
        }
        i += 1;
    }
    proof {
        assert(s@.take(s@.len() as int) =~= s@);
    }
    r
}

/// Whether `pat` occurs in `s` at index `i`.
pub open spec fn occurs_at(s: Seq<char>, pat: Seq<char>, i: int) -> bool {
    0 <= i && i + pat.len() <= s.len() && s.subrange(i, i + pat.len()) == pat
}

/// The first index at or after `i` where `pat` occurs in `s`.
pub open spec fn find_from(s: Seq<char>, pat: Seq<char>, i: nat) -> Option<nat>
    decreases s.len() + 1 - i,
{
    if i + pat.len() > s.len() {
        None
    } else if occurs_at(s, pat, i as int) {
        Some(i)
    } else {
        find_from(s, pat, i + 1)
    }
}

/// The first index where `pat` occurs in `s`.
pub fn find_chars(s: &Vec<char>, pat: &Vec<char>) -> (r: Option<usize>)
    ensures
        match r {
            Some(i) => find_from(s@, pat@, 0) == Some(i as nat) && i + pat@.len() <= s@.len(),
            None => find_from(s@, pat@, 0) is None,
        },
{
    let mut i: usize = 0;
    while i <= s.len() && pat.len() <= s.len() - i
        invariant
            find_from(s@, pat@, 0) == find_from(s@, pat@, i as nat),
        decreases s.len() + 1 - i,
    {
        let mut k: usize = 0;
        let mut same = true;
        while k < pat.len()
            invariant
                i + pat@.len() <= s@.len(),
                s@.len() == s.len(),
                pat@.len() == pat.len(),
                k <= pat@.len(),
                same == (forall|j: int| 0 <= j < k ==> s@[i + j] == pat@[j]),
            decreases pat.len() - k,
        {
            if s[i + k] != pat[k] {
                same = false;
            }
            k += 1;
        }
        proof {
            if same {
                assert(s@.subrange(i as int, i + pat@.len()) =~= pat@);
            } else {
                let j = choose|j: int| 0 <= j < pat@.len() && s@[i + j] != pat@[j];
                assert(s@.subrange(i as int, i + pat@.len())[j] != pat@[j]);
            }
        }
        if same {
            return Some(i);
        }
        i += 1;
    }
    None
}

} // verus!
