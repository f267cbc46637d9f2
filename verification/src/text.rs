//! Text as sequences of characters: trimming, ASCII case, numbers in and out.
//!
//! Everything that reads or writes text in this crate goes through here, so
//! that what a configuration line, a laser name or an error message says can be
//! stated over `Seq<char>`.

use vstd::prelude::*;
use vstd::slice::slice_subrange;

verus! {

/// `String::push` appends one character.
pub assume_specification[ String::push ](s: &mut String, c: char)
    ensures
        final(s)@ == old(s)@.push(c),
;

// ---- characters -----------------------------------------------------------

/// The Unicode White_Space property.
pub open spec fn is_white(c: char) -> bool {
    let u = c as u32;
    ||| 0x09 <= u <= 0x0D
    ||| u == 0x20
    ||| u == 0x85
    ||| u == 0xA0
    ||| u == 0x1680
    ||| 0x2000 <= u <= 0x200A
    ||| u == 0x2028
    ||| u == 0x2029
    ||| u == 0x202F
    ||| u == 0x205F
    ||| u == 0x3000
}

/// White space, and NUL as well where `nul` says so.
pub open spec fn is_blank(c: char, nul: bool) -> bool {
    is_white(c) || (nul && c == '\0')
}

pub fn blank(c: char, nul: bool) -> (r: bool)
    ensures
        r == is_blank(c, nul),
{
    let u: u32 = c as u32;
    (0x09 <= u && u <= 0x0D) || u == 0x20 || u == 0x85 || u == 0xA0 || u == 0x1680
        || (0x2000 <= u && u <= 0x200A) || u == 0x2028 || u == 0x2029 || u == 0x202F
        || u == 0x205F || u == 0x3000 || (nul && c == '\0')
}

/// ASCII lower case of one character; anything else is left alone.
pub open spec fn lower_char(c: char) -> char {
    if 'A' <= c <= 'Z' {
        (c as u32 + 32) as char
    } else {
        c
    }
}

/// ASCII lower case of a text.
pub open spec fn lower(s: Seq<char>) -> Seq<char> {
    s.map_values(|c: char| lower_char(c))
}

fn to_lower_char(c: char) -> (r: char)
    ensures
        r == lower_char(c),
{
    if 'A' <= c && c <= 'Z' {
        ((c as u8) + 32) as char
    } else {
        c
    }
}

// ---- whole texts ----------------------------------------------------------

/// The characters of a string.
pub fn to_chars(s: &str) -> (r: Vec<char>)
    ensures
        r@ == s@,
{
    let mut r: Vec<char> = Vec::new();
    for c in it: s.chars()
        invariant
            it.seq() == s@,
            r@ == s@.take(it.index() as int),
    {
        r.push(c);
        assert(s@.take(it.index() + 1) =~= s@.take(it.index() as int).push(c));
    }
    assert(s@.take(s@.len() as int) =~= s@);
    r
}

/// A string of the given characters.
pub fn from_chars(v: &[char]) -> (r: String)
    ensures
        r@ == v@,
{
    let mut r = String::new();
    let n: usize = v.len();
    for i in 0..n
        invariant
            n == v@.len(),
            r@ == v@.take(i as int),
    {
        r.push(v[i]);
        assert(v@.take(i + 1) =~= v@.take(i as int).push(v@[i as int]));
    }
    assert(v@.take(n as int) =~= v@);
    r
}

/// The text in ASCII lower case.
pub fn to_lower(v: &[char]) -> (r: Vec<char>)
    ensures
        r@ == lower(v@),
{
    let mut r: Vec<char> = Vec::new();
    let n: usize = v.len();
    for i in 0..n
        invariant
            n == v@.len(),
            r@.len() == i,
            forall|j: int| 0 <= j < i ==> r@[j] == lower_char(v@[j]),
    {
        r.push(to_lower_char(v[i]));
    }
    assert(r@ =~= lower(v@));
    r
}

/// Whether two texts are the same.
pub fn same(a: &[char], b: &[char]) -> (r: bool)
    ensures
        r == (a@ == b@),
{
    let n: usize = a.len();
    if n != b.len() {
        return false;
    }
    for i in 0..n
        invariant
            n == a@.len(),
            n == b@.len(),
            forall|j: int| 0 <= j < i ==> a@[j] == b@[j],
    {
        if a[i] != b[i] {
            return false;
        }
    }
    assert(a@ =~= b@);
    true
}

/// Whether `needle` occurs in `s` at some place.
pub open spec fn occurs(needle: Seq<char>, s: Seq<char>) -> bool {
    exists|i: int|
        0 <= i && i + needle.len() <= s.len() && #[trigger] s.subrange(i, i + needle.len())
            == needle
}

pub fn contains(s: &[char], needle: &[char]) -> (r: bool)
    ensures
        r == occurs(needle@, s@),
{
    let n: usize = needle.len();
    let total: usize = s.len();
    if n > total {
        return false;
    }
    let last: usize = total - n;
    let mut i: usize = 0;
    while i <= last
        invariant
            n == needle@.len(),
            n <= total,
            total == s@.len(),
            last == total - n,
            i <= last + 1,
            forall|j: int| 0 <= j < i ==> #[trigger] s@.subrange(j, j + n) != needle@,
        decreases last + 1 - i,
    {
        if same(slice_subrange(s, i, i + n), needle) {
            return true;
        }
        if i == last {
            return false;
        }
        i = i + 1;
    }
    false
}

// ---- splitting ------------------------------------------------------------

/// Where `c` first stands in `s`, or the length of `s` where it does not.
pub open spec fn find(s: Seq<char>, c: char) -> int
    decreases s.len(),
{
    if s.len() == 0 || s[0] == c {
        0
    } else {
        1 + find(s.skip(1), c)
    }
}

/// `find` gives the first place: nothing before it is `c`, and it is.
pub proof fn lemma_find(s: Seq<char>, c: char)
    ensures
        0 <= find(s, c) <= s.len(),
        find(s, c) < s.len() ==> s[find(s, c)] == c,
        forall|i: int| 0 <= i < find(s, c) ==> s[i] != c,
    decreases s.len(),
{
    if s.len() > 0 && s[0] != c {
        lemma_find(s.skip(1), c);
        assert forall|i: int| 0 <= i < find(s, c) implies s[i] != c by {
            if i > 0 {
                assert(s.skip(1)[i - 1] == s[i]);
            }
        }
    }
}

/// The text before the first `c` and the text behind it.
pub open spec fn split(s: Seq<char>, c: char) -> Option<(Seq<char>, Seq<char>)> {
    if find(s, c) < s.len() {
        Some((s.take(find(s, c)), s.skip(find(s, c) + 1)))
    } else {
        None
    }
}

pub fn find_char(v: &[char], c: char) -> (r: usize)
    ensures
        r == find(v@, c),
        r <= v@.len(),
{
    let n: usize = v.len();
    let mut i: usize = 0;
    assert(v@.skip(0) =~= v@);
    while i < n && v[i] != c
        invariant
            n == v@.len(),
            i <= n,
            find(v@, c) == i + find(v@.skip(i as int), c),
        decreases n - i,
    {
        assert(v@.skip(i as int).skip(1) =~= v@.skip(i + 1));
        i = i + 1;
    }
    i
}

/// Split a text at the first `c`.
pub fn split_once(v: &[char], c: char) -> (r: Option<(&[char], &[char])>)
    ensures
        match r {
            Some((a, b)) => split(v@, c) == Some((a@, b@)),
            None => split(v@, c) is None,
        },
{
    let i: usize = find_char(v, c);
    if i < v.len() {
        let a = slice_subrange(v, 0, i);
        let b = slice_subrange(v, i + 1, v.len());
        assert(a@ =~= v@.take(i as int));
        assert(b@ =~= v@.skip(i + 1));
        Some((a, b))
    } else {
        None
    }
}

// ---- trimming -------------------------------------------------------------

/// `s` without its leading blanks.
pub open spec fn trim_start(s: Seq<char>, nul: bool) -> Seq<char>
    decreases s.len(),
{
    if s.len() > 0 && is_blank(s[0], nul) {
        trim_start(s.skip(1), nul)
    } else {
        s
    }
}

/// `s` without its trailing blanks.
pub open spec fn trim_end(s: Seq<char>, nul: bool) -> Seq<char>
    decreases s.len(),
{
    if s.len() > 0 && is_blank(s.last(), nul) {
        trim_end(s.drop_last(), nul)
    } else {
        s
    }
}

/// `s` without the blanks at either end.
pub open spec fn trim(s: Seq<char>, nul: bool) -> Seq<char> {
    trim_end(trim_start(s, nul), nul)
}

pub fn trimmed(v: &[char], nul: bool) -> (r: &[char])
    ensures
        r@ == trim(v@, nul),
{
    let n: usize = v.len();
    let mut lo: usize = 0;
    assert(v@.skip(0) =~= v@);
    while lo < n && blank(v[lo], nul)
        invariant
            n == v@.len(),
            lo <= n,
            trim_start(v@.skip(lo as int), nul) == trim_start(v@, nul),
        decreases n - lo,
    {
        assert(v@.skip(lo as int).skip(1) =~= v@.skip(lo + 1));
        lo = lo + 1;
    }
    let mut hi: usize = n;
    assert(v@.skip(lo as int) =~= v@.subrange(lo as int, hi as int));
    while lo < hi && blank(v[hi - 1], nul)
        invariant
            n == v@.len(),
            lo <= hi <= n,
            trim_end(v@.subrange(lo as int, hi as int), nul) == trim(v@, nul),
        decreases hi - lo,
    {
        assert(v@.subrange(lo as int, hi as int).drop_last() =~= v@.subrange(
            lo as int,
            hi - 1,
        ));
        hi = hi - 1;
    }
    slice_subrange(v, lo, hi)
}

/// Where a text starts and ends without a blank, trimming leaves it alone.
pub proof fn lemma_trim_id(s: Seq<char>, nul: bool)
    requires
        s.len() == 0 || (!is_blank(s[0], nul) && !is_blank(s.last(), nul)),
    ensures
        trim(s, nul) == s,
{
}

/// What trimming leaves starts and ends without a blank, and is a part of the
/// text between two blank stretches.
pub proof fn lemma_trim_shape(s: Seq<char>, nul: bool) -> (r: (int, int))
    ensures
        0 <= r.0 <= r.1 <= s.len(),
        trim(s, nul) == s.subrange(r.0, r.1),
        trim(s, nul).len() > 0 ==> !is_blank(trim(s, nul)[0], nul) && !is_blank(
            trim(s, nul).last(),
            nul,
        ),
        s.len() > 0 && !is_blank(s[0], nul) ==> r.0 == 0 && r.1 > 0,
        s.len() > 0 && !is_blank(s.last(), nul) ==> r.1 == s.len() && r.0 < s.len(),
    decreases s.len(),
{
    if s.len() > 0 && is_blank(s[0], nul) {
        let t = lemma_trim_shape(s.skip(1), nul);
        assert(s.skip(1).subrange(t.0, t.1) =~= s.subrange(t.0 + 1, t.1 + 1));
        if s.len() > 1 {
            assert(s.skip(1).last() == s.last());
        }
        (t.0 + 1, t.1 + 1)
    } else if s.len() > 0 && is_blank(s.last(), nul) {
        let t = lemma_trim_shape(s.drop_last(), nul);
        if s.len() > 1 {
            assert(s.drop_last()[0] == s[0]);
        }
        assert(trim_start(s.drop_last(), nul) == s.drop_last());
        assert(s.drop_last().subrange(t.0, t.1) =~= s.subrange(t.0, t.1));
        t
    } else {
        assert(s.subrange(0, s.len() as int) =~= s);
        (0, s.len() as int)
    }
}

// ---- numbers out ----------------------------------------------------------

/// The character of one digit, upper case above nine.
pub open spec fn digit_char(d: int) -> char {
    if d < 10 {
        (48 + d) as char
    } else {
        (55 + d) as char
    }
}

/// `n` in decimal, without leading zeros.
pub open spec fn decimal(n: nat) -> Seq<char>
    decreases n,
{
    if n < 10 {
        seq![digit_char(n as int)]
    } else {
        decimal(n / 10).push(digit_char((n % 10) as int))
    }
}

/// `n` in decimal, with a sign where it is negative.
pub open spec fn signed_decimal(n: int) -> Seq<char> {
    if n < 0 {
        seq!['-'] + decimal((-n) as nat)
    } else {
        decimal(n as nat)
    }
}

/// The low `width` hexadecimal digits of `n`, upper case, zero padded.
pub open spec fn hexadecimal(n: nat, width: nat) -> Seq<char>
    decreases width,
{
    if width == 0 {
        Seq::empty()
    } else {
        hexadecimal(n / 16, (width - 1) as nat).push(digit_char((n % 16) as int))
    }
}

fn digit(d: u8) -> (r: char)
    requires
        d < 16,
    ensures
        r == digit_char(d as int),
{
    if d < 10 {
        (48 + d) as char
    } else {
        (55 + d) as char
    }
}

pub fn push_decimal(s: &mut String, n: u64)
    ensures
        final(s)@ == old(s)@ + decimal(n as nat),
    decreases n,
{
    if n >= 10 {
        push_decimal(s, n / 10);
    }
    s.push(digit((n % 10) as u8));
    assert(s@ =~= old(s)@ + decimal(n as nat));
}

pub fn push_signed(s: &mut String, n: i64)
    ensures
        final(s)@ == old(s)@ + signed_decimal(n as int),
{
    if n < 0 {
        s.push('-');
        let m: u64 = if n == i64::MIN {
            0x8000_0000_0000_0000u64
        } else {
            (-n) as u64
        };
        push_decimal(s, m);
        assert(s@ =~= old(s)@ + signed_decimal(n as int));
    } else {
        push_decimal(s, n as u64);
    }
}

pub fn push_hex(s: &mut String, n: u32, width: u32)
    ensures
        final(s)@ == old(s)@ + hexadecimal(n as nat, width as nat),
    decreases width,
{
    if width > 0 {
        push_hex(s, n / 16, width - 1);
        s.push(digit((n % 16) as u8));
    }
    assert(s@ =~= old(s)@ + hexadecimal(n as nat, width as nat));
}

// ---- numbers in -----------------------------------------------------------

/// The value of a digit in bases up to sixteen, or -1.
pub open spec fn digit_value(c: char) -> int {
    if '0' <= c <= '9' {
        c as u32 - 48
    } else if 'a' <= c <= 'f' {
        c as u32 - 87
    } else if 'A' <= c <= 'F' {
        c as u32 - 55
    } else {
        -1
    }
}

pub open spec fn is_digit(c: char, radix: int) -> bool {
    0 <= digit_value(c) < radix
}

/// All characters are digits, and there is at least one.
pub open spec fn is_number(d: Seq<char>, radix: int) -> bool {
    d.len() > 0 && forall|i: int| 0 <= i < d.len() ==> #[trigger] is_digit(d[i], radix)
}

/// The number that a run of digits writes.
pub open spec fn number_value(d: Seq<char>, radix: int) -> int
    decreases d.len(),
{
    if d.len() == 0 {
        0
    } else {
        number_value(d.drop_last(), radix) * radix + digit_value(d.last())
    }
}

/// An unsigned number up to `max`: digits, with an optional plus sign.
pub open spec fn unsigned_number(s: Seq<char>, radix: int, max: int) -> Option<int> {
    let d = if s.len() > 0 && s[0] == '+' {
        s.skip(1)
    } else {
        s
    };
    if is_number(d, radix) && number_value(d, radix) <= max {
        Some(number_value(d, radix))
    } else {
        None
    }
}

/// A signed 64-bit number: digits, with an optional sign.
pub open spec fn signed_number(s: Seq<char>, radix: int) -> Option<int> {
    if s.len() > 0 && s[0] == '-' {
        let d = s.skip(1);
        if is_number(d, radix) && number_value(d, radix) <= 0x8000_0000_0000_0000 {
            Some(-number_value(d, radix))
        } else {
            None
        }
    } else {
        unsigned_number(s, radix, 0x7FFF_FFFF_FFFF_FFFF)
    }
}

/// The value of one digit, 16 where there is none.
pub(crate) fn value_of(c: char) -> (r: u8)
    ensures
        digit_value(c) >= 0 ==> r == digit_value(c),
        digit_value(c) < 0 ==> r == 16,
{
    if '0' <= c && c <= '9' {
        (c as u8) - 48
    } else if 'a' <= c && c <= 'f' {
        (c as u8) - 87
    } else if 'A' <= c && c <= 'F' {
        (c as u8) - 55
    } else {
        16
    }
}

fn parse_digits(d: &[char], radix: u8, max: u64) -> (r: Option<u64>)
    requires
        2 <= radix <= 16,
    ensures
        match r {
            Some(v) => is_number(d@, radix as int) && number_value(d@, radix as int) == v && v
                <= max,
            None => !is_number(d@, radix as int) || number_value(d@, radix as int) > max,
        },
{
    let n: usize = d.len();
    if n == 0 {
        return None;
    }
    let mut acc: u128 = 0;
    let mut over: bool = false;
    for i in 0..n
        invariant
            n == d@.len(),
            2 <= radix <= 16,
            forall|j: int| 0 <= j < i ==> #[trigger] is_digit(d@[j], radix as int),
            !over ==> acc == number_value(d@.take(i as int), radix as int) && acc <= max,
            over ==> number_value(d@.take(i as int), radix as int) > max,
    {
        let v: u8 = value_of(d[i]);
        if v >= radix {
            assert(!is_digit(d@[i as int], radix as int));
            return None;
        }
        assert(d@.take(i + 1).drop_last() =~= d@.take(i as int));
        assert(is_digit(d@[i as int], radix as int));
        let ghost before = number_value(d@.take(i as int), radix as int);
        if !over {
            assert(acc * radix <= 16 * 0xFFFF_FFFF_FFFF_FFFF) by (nonlinear_arith)
                requires
                    0 <= acc <= 0xFFFF_FFFF_FFFF_FFFF,
                    2 <= radix <= 16,
            ;
            acc = acc * (radix as u128) + (v as u128);
            if acc > max as u128 {
                over = true;
            }
        } else {
            assert(before * radix + v > max) by (nonlinear_arith)
                requires
                    before > max,
                    radix >= 2,
                    v >= 0,
                    max >= 0,
            ;
        }
    }
    assert(d@.take(n as int) =~= d@);
    if over {
        None
    } else {
        Some(acc as u64)
    }
}

pub fn parse_unsigned(s: &[char], radix: u8, max: u64) -> (r: Option<u64>)
    requires
        2 <= radix <= 16,
    ensures
        match r {
            Some(v) => unsigned_number(s@, radix as int, max as int) == Some(v as int),
            None => unsigned_number(s@, radix as int, max as int) is None,
        },
{
    if s.len() > 0 && s[0] == '+' {
        let rest = slice_subrange(s, 1, s.len());
        assert(rest@ =~= s@.skip(1));
        parse_digits(rest, radix, max)
    } else {
        parse_digits(s, radix, max)
    }
}

pub fn parse_signed(s: &[char], radix: u8) -> (r: Option<i64>)
    requires
        2 <= radix <= 16,
    ensures
        match r {
            Some(v) => signed_number(s@, radix as int) == Some(v as int),
            None => signed_number(s@, radix as int) is None,
        },
{
    if s.len() > 0 && s[0] == '-' {
        let rest = slice_subrange(s, 1, s.len());
        assert(rest@ =~= s@.skip(1));
        match parse_digits(rest, radix, 0x8000_0000_0000_0000) {
            Some(m) => if m == 0x8000_0000_0000_0000 {
                Some(i64::MIN)
            } else {
                Some(-(m as i64))
            },
            None => None,
        }
    } else {
        match parse_unsigned(s, radix, 0x7FFF_FFFF_FFFF_FFFF) {
            Some(m) => Some(m as i64),
            None => None,
        }
    }
}

// ---- laws -----------------------------------------------------------------

/// A number that is written in decimal reads back.
pub proof fn law_decimal_reads_back(n: nat)
    ensures
        is_number(decimal(n), 10),
        number_value(decimal(n), 10) == n,
    decreases n,
{
    let d = decimal(n);
    let last = digit_char((n % 10) as int);
    assert(digit_value(last) == n % 10);
    if n < 10 {
        assert(d =~= seq![last]);
        assert(d.drop_last() =~= Seq::<char>::empty());
        assert(number_value(d.drop_last(), 10) == 0);
    } else {
        law_decimal_reads_back(n / 10);
        assert(d.drop_last() =~= decimal(n / 10));
        assert forall|i: int| 0 <= i < d.len() implies #[trigger] is_digit(d[i], 10) by {
            if i < d.len() - 1 {
                assert(is_digit(decimal(n / 10)[i], 10));
            }
        }
    }
}

/// What is blank among the ASCII characters: the space, and tab to carriage return; NUL
/// only where it is asked for. No letter, digit or sign is.
pub proof fn law_what_is_blank(c: char, nul: bool)
    ensures
        c <= '\x7F' ==> (is_blank(c, nul) <==> c == ' ' || c == '\t' || c == '\n' || c
            == '\x0B' || c == '\x0C' || c == '\r' || (nul && c == '\0')),
        is_blank('\u{85}', nul) && is_blank('\u{A0}', nul) && is_blank('\u{2028}', nul),
        is_blank('\u{2003}', nul) && is_blank('\u{3000}', nul),
        !is_blank('\u{200B}', nul) && !is_blank('\u{FEFF}', nul),
        c > '\u{3000}' ==> !is_blank(c, nul),
{
}

/// Lower case changes A to Z alone, each into its own letter, and a second time nothing.
pub proof fn law_lower_case(s: Seq<char>)
    ensures
        lower(s).len() == s.len(),
        forall|i: int|
            0 <= i < s.len() ==> {
                let (a, b) = (s[i], #[trigger] lower(s)[i]);
                &&& !('A' <= b <= 'Z')
                &&& 'A' <= a <= 'Z' ==> b as u32 - 'a' as u32 == a as u32 - 'A' as u32
                &&& !('A' <= a <= 'Z') ==> a == b
            },
        lower(lower(s)) == lower(s),
{
    assert forall|i: int| 0 <= i < s.len() implies {
        let (a, b) = (s[i], #[trigger] lower(s)[i]);
        &&& !('A' <= b <= 'Z')
        &&& 'A' <= a <= 'Z' ==> b as u32 - 'a' as u32 == a as u32 - 'A' as u32
        &&& !('A' <= a <= 'Z') ==> a == b
    } by {
        lemma_lower_char(s[i]);
    }
    assert(lower(lower(s)) =~= lower(s));
}

proof fn lemma_lower_char(a: char)
    ensures
        !('A' <= lower_char(a) <= 'Z'),
        'A' <= a <= 'Z' ==> lower_char(a) as u32 - 'a' as u32 == a as u32 - 'A' as u32,
        !('A' <= a <= 'Z') ==> lower_char(a) == a,
{
}

/// Trimming takes blanks off both ends and nothing else: the text is blanks, what is left,
/// and blanks, and what is left neither starts nor ends with one.
pub proof fn law_trimming_takes_blanks_alone(s: Seq<char>, nul: bool)
    ensures
        exists|lo: int, hi: int|
            {
                &&& 0 <= lo <= hi <= s.len()
                &&& trim(s, nul) == #[trigger] s.subrange(lo, hi)
                &&& forall|i: int|
                    0 <= i < lo || hi <= i < s.len() ==> is_blank(#[trigger] s[i], nul)
                &&& lo < hi ==> !is_blank(s[lo], nul) && !is_blank(s[hi - 1], nul)
            },
{
    let r = lemma_trim_parts(s, nul);
    assert(trim(s, nul) == s.subrange(r.0, r.1));
}

proof fn lemma_trim_parts(s: Seq<char>, nul: bool) -> (r: (int, int))
    ensures
        0 <= r.0 <= r.1 <= s.len(),
        trim(s, nul) == s.subrange(r.0, r.1),
        forall|i: int| 0 <= i < r.0 || r.1 <= i < s.len() ==> is_blank(#[trigger] s[i], nul),
        r.0 < r.1 ==> !is_blank(s[r.0], nul) && !is_blank(s[r.1 - 1], nul),
    decreases s.len(),
{
    if s.len() > 0 && is_blank(s[0], nul) {
        let t = lemma_trim_parts(s.skip(1), nul);
        assert(s.skip(1).subrange(t.0, t.1) =~= s.subrange(t.0 + 1, t.1 + 1));
        assert forall|i: int| 0 <= i < t.0 + 1 || t.1 + 1 <= i < s.len() implies is_blank(
            #[trigger] s[i],
            nul,
        ) by {
            if i > 0 {
                assert(s.skip(1)[i - 1] == s[i]);
            }
        }
        (t.0 + 1, t.1 + 1)
    } else if s.len() > 0 && is_blank(s.last(), nul) {
        let t = lemma_trim_parts(s.drop_last(), nul);
        if s.len() > 1 {
            assert(s.drop_last()[0] == s[0]);
        }
        assert(trim_start(s.drop_last(), nul) == s.drop_last());
        assert(s.drop_last().subrange(t.0, t.1) =~= s.subrange(t.0, t.1));
        assert forall|i: int| 0 <= i < t.0 || t.1 <= i < s.len() implies is_blank(
            #[trigger] s[i],
            nul,
        ) by {
            if i < s.len() - 1 {
                assert(s.drop_last()[i] == s[i]);
            }
        }
        t
    } else {
        assert(s.subrange(0, s.len() as int) =~= s);
        (0, s.len() as int)
    }
}

/// A split is at the first `c`: the text is the part before, `c`, and the part behind, and
/// `c` does not stand before. A text without `c` is not split.
pub proof fn law_a_split_joins_again(s: Seq<char>, c: char)
    ensures
        split(s, c) matches Some((a, b)) ==> s == a + seq![c] + b && !a.contains(c),
        split(s, c) is Some <==> s.contains(c),
{
    lemma_find(s, c);
    let n = find(s, c);
    if n < s.len() {
        assert(s =~= s.take(n) + seq![c] + s.skip(n + 1));
        if s.take(n).contains(c) {
            let i = choose|i: int| 0 <= i < n && s.take(n)[i] == c;
            assert(s[i] == c);
        }
        assert(s[n] == c);
    }
}

/// A needle occurs exactly where the text is something, the needle, and something.
pub proof fn law_what_occurs_stands_inside(
    needle: Seq<char>,
    s: Seq<char>,
    a: Seq<char>,
    b: Seq<char>,
)
    ensures
        s == a + needle + b ==> occurs(needle, s),
        occurs(needle, s) ==> exists|x: Seq<char>, y: Seq<char>|
            s == #[trigger] (x + needle + y),
{
    if s == a + needle + b {
        let n = a.len() as int;
        assert(s.subrange(n, n + needle.len()) =~= needle);
    }
    if occurs(needle, s) {
        let i = choose|i: int|
            0 <= i && i + needle.len() <= s.len() && #[trigger] s.subrange(i, i + needle.len())
                == needle;
        let x = s.take(i);
        let y = s.skip(i + needle.len());
        assert forall|k: int| 0 <= k < s.len() implies s[k] == (x + needle + y)[k] by {
            if i <= k < i + needle.len() {
                assert(s.subrange(i, i + needle.len())[k - i] == s[k]);
            }
        }
        assert(s =~= x + needle + y);
    }
}

/// The digits by their values.
pub proof fn law_digits_by_value(c: char)
    ensures
        '0' <= c <= '9' ==> digit_value(c) == c as u32 - '0' as u32,
        'a' <= c <= 'f' ==> digit_value(c) == 10 + (c as u32 - 'a' as u32),
        'A' <= c <= 'F' ==> digit_value(c) == 10 + (c as u32 - 'A' as u32),
        is_digit(c, 10) <==> '0' <= c <= '9',
        is_digit(c, 16) <==> '0' <= c <= '9' || 'a' <= c <= 'f' || 'A' <= c <= 'F',
{
}

/// A number is read place by place: one more digit is the number so far times the base,
/// and that digit.
pub proof fn law_places_count_by_the_base(d: Seq<char>, c: char, radix: int)
    ensures
        number_value(seq![c], radix) == digit_value(c),
        number_value(d.push(c), radix) == number_value(d, radix) * radix + digit_value(c),
{
    assert(d.push(c).drop_last() =~= d);
    assert(seq![c].drop_last() =~= Seq::<char>::empty());
    assert(number_value(Seq::<char>::empty(), radix) == 0);
    reveal_with_fuel(number_value, 2);
}

/// What is written in decimal, with its sign, is read as the same number; so is one behind
/// a plus sign. A number over the limit is not read, and neither is a bare sign.
pub proof fn law_a_written_number_is_read(n: int, max: int)
    requires
        -0x8000_0000_0000_0000 <= n <= 0x7FFF_FFFF_FFFF_FFFF,
    ensures
        signed_number(signed_decimal(n), 10) == Some(n),
        0 <= n <= max ==> unsigned_number(signed_decimal(n), 10, max) == Some(n),
        0 <= n <= max ==> unsigned_number(seq!['+'] + signed_decimal(n), 10, max) == Some(n),
        n > max && n >= 0 ==> unsigned_number(signed_decimal(n), 10, max) is None,
        n < 0 ==> unsigned_number(signed_decimal(n), 10, max) is None,
        signed_number(seq!['-'], 10) is None && unsigned_number(seq!['+'], 10, max) is None,
        signed_number(Seq::empty(), 10) is None && unsigned_number(Seq::empty(), 10, max) is None,
{
    let s = signed_decimal(n);
    assert(seq!['-'].skip(1).len() == 0);
    assert(seq!['+'].skip(1).len() == 0);
    if n < 0 {
        law_decimal_reads_back((-n) as nat);
        assert(s.skip(1) =~= decimal((-n) as nat));
        assert(!is_digit(s[0], 10));
    } else {
        law_decimal_reads_back(n as nat);
        assert(is_digit(s[0], 10));
        assert((seq!['+'] + s).skip(1) =~= s);
    }
}

/// 16 to the power `w`.
pub open spec fn sixteens(w: nat) -> nat
    decreases w,
{
    if w == 0 {
        1
    } else {
        16 * sixteens((w - 1) as nat)
    }
}

/// What is written in hexadecimal has its width, in digits with capital letters, and is
/// read as the same number where that fits the width.
pub proof fn law_hexadecimal_reads_back(n: nat, w: nat)
    ensures
        hexadecimal(n, w).len() == w,
        forall|i: int|
            0 <= i < w ==> {
                let c = #[trigger] hexadecimal(n, w)[i];
                '0' <= c <= '9' || 'A' <= c <= 'F'
            },
        n < sixteens(w) ==> number_value(hexadecimal(n, w), 16) == n,
    decreases w,
{
    if w > 0 {
        let k = (w - 1) as nat;
        law_hexadecimal_reads_back(n / 16, k);
        let h = hexadecimal(n, w);
        assert(h.drop_last() =~= hexadecimal(n / 16, k));
        let last = digit_char((n % 16) as int);
        assert(digit_value(last) == n % 16);
        assert('0' <= last <= '9' || 'A' <= last <= 'F');
        assert forall|i: int| 0 <= i < w implies {
            let c = #[trigger] h[i];
            '0' <= c <= '9' || 'A' <= c <= 'F'
        } by {
            if i < k {
                assert(h[i] == hexadecimal(n / 16, k)[i]);
            }
        }
    }
}

} // verus!
