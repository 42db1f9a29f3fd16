//! Parsing comma-separated hexadecimal color lists.

use vstd::prelude::*;
use vstd::string::*;

use crate::error::FlagError;
use crate::path::{chars_of, lacks, string_of};
use crate::text::{digit_char, hex_upper, push_digits};

verus! {

/// Largest color value (0xRRGGBB).
pub const MAX_COLOR: u32 = 0xFF_FFFF;

/// Whether `c` has the Unicode `White_Space` property (`char::is_whitespace`).
pub open spec fn is_white_space(c: char) -> bool {
    let n = c as u32;
    ||| 0x09 <= n <= 0x0D
    ||| n == 0x20
    ||| n == 0x85
    ||| n == 0xA0
    ||| n == 0x1680
    ||| 0x2000 <= n <= 0x200A
    ||| n == 0x2028
    ||| n == 0x2029
    ||| n == 0x202F
    ||| n == 0x205F
    ||| n == 0x3000
}

/// `s` without its leading white space.
pub open spec fn trim_start(s: Seq<char>) -> Seq<char>
    decreases s.len(),
{
    if s.len() > 0 && is_white_space(s[0]) {
        trim_start(s.drop_first())
    } else {
        s
    }
}

/// `s` without its trailing white space.
pub open spec fn trim_end(s: Seq<char>) -> Seq<char>
    decreases s.len(),
{
    if s.len() > 0 && is_white_space(s.last()) {
        trim_end(s.drop_last())
    } else {
        s
    }
}

/// `s` without leading and trailing white space (`str::trim`).
pub open spec fn trim(s: Seq<char>) -> Seq<char> {
    trim_end(trim_start(s))
}

/// `t` without one leading `#`, or else one leading `0x`, or else one leading `0X`.
pub open spec fn strip_color_prefix(t: Seq<char>) -> Seq<char> {
    if t.len() >= 1 && t[0] == '#' {
        t.drop_first()
    } else if t.len() >= 2 && t[0] == '0' && (t[1] == 'x' || t[1] == 'X') {
        t.subrange(2, t.len() as int)
    } else {
        t
    }
}

/// The value of a hexadecimal digit (either case).
pub open spec fn hex_digit_value(c: char) -> Option<nat> {
    if '0' <= c <= '9' {
        Some((c as nat - '0' as nat) as nat)
    } else if 'a' <= c <= 'f' {
        Some((c as nat - 'a' as nat + 10) as nat)
    } else if 'A' <= c <= 'F' {
        Some((c as nat - 'A' as nat + 10) as nat)
    } else {
        None
    }
}

/// The number that the hexadecimal digits `d` denote (0 for no digits),
/// if all of them are hexadecimal digits.
pub open spec fn hex_value(d: Seq<char>) -> Option<nat>
    decreases d.len(),
{
    if d.len() == 0 {
        Some(0)
    } else {
        match (hex_value(d.drop_last()), hex_digit_value(d.last())) {
            (Some(high), Some(low)) => Some(high * 16 + low),
            _ => None,
        }
    }
}

/// What `u32::from_str_radix(s, 16)` succeeds with: an optional leading
/// `+`, then at least one hexadecimal digit, denoting at most `u32::MAX`.
pub open spec fn parse_hex_u32(s: Seq<char>) -> Option<u32> {
    let d = if s.len() > 0 && s[0] == '+' {
        s.drop_first()
    } else {
        s
    };
    if d.len() == 0 {
        None
    } else {
        match hex_value(d) {
            Some(n) => if n <= u32::MAX {
                Some(n as u32)
            } else {
                None
            },
            None => None,
        }
    }
}

/// Message for a color entry that is not a hexadecimal number.
pub open spec fn invalid_color_message(entry: Seq<char>) -> Seq<char> {
    "Invalid hex color: '"@ + entry + "'. Expected format: RRGGBB or #RRGGBB"@
}

/// Message for a color value above 0xFFFFFF.
pub open spec fn color_too_large_message(value: u32) -> Seq<char> {
    "Color value too large: 0x"@ + hex_upper(value as nat) + ". Must be in range 0x000000-0xFFFFFF"@
}

/// Message for a list without any color.
pub open spec fn no_colors_message() -> Seq<char> {
    "At least one color must be provided"@
}

/// What one comma-separated entry contributes: nothing if it is blank,
/// else its color or the error it raises.
pub open spec fn entry_color(entry: Seq<char>) -> Option<Result<u32, Seq<char>>> {
    let t = trim(entry);
    if t.len() == 0 {
        None
    } else {
        let h = strip_color_prefix(t);
        match parse_hex_u32(h) {
            None => Some(Err(invalid_color_message(h))),
            Some(c) => if c > MAX_COLOR {
                Some(Err(color_too_large_message(c)))
            } else {
                Some(Ok(c))
            },
        }
    }
}

/// Index of the first occurrence of `c` in `s`, or -1 if there is none.
pub open spec fn first_index_of(s: Seq<char>, c: char) -> int
    decreases s.len(),
{
    if s.len() == 0 {
        -1
    } else if s[0] == c {
        0
    } else {
        let k = first_index_of(s.drop_first(), c);
        if k < 0 {
            -1
        } else {
            k + 1
        }
    }
}

/// `first_index_of` is -1 or an index holding `c`, and nothing before it holds `c`.
pub proof fn lemma_first_index_of(s: Seq<char>, c: char)
    ensures
        -1 <= first_index_of(s, c) < s.len(),
        first_index_of(s, c) >= 0 ==> s[first_index_of(s, c)] == c,
        first_index_of(s, c) >= 0 ==> lacks(s.take(first_index_of(s, c)), c),
        first_index_of(s, c) < 0 ==> lacks(s, c),
    decreases s.len(),
{
    if s.len() > 0 && s[0] != c {
        lemma_first_index_of(s.drop_first(), c);
        let k = first_index_of(s.drop_first(), c);
        assert(forall|j: int| 0 <= j < s.len() - 1 ==> s.drop_first()[j] == s[j + 1]);
        if k >= 0 {
            assert forall|j: int| 0 <= j < k + 1 implies #[trigger] s.take(k + 1)[j] != c by {
                if j > 0 {
                    assert(s.drop_first().take(k)[j - 1] == s[j]);
                }
            }
        } else {
            assert forall|j: int| 0 <= j < s.len() implies s[j] != c by {
                if j > 0 {
                    assert(s.drop_first()[j - 1] == s[j]);
                }
            }
        }
    }
}

/// The colors of a comma-separated list, in order, or the error of its
/// first entry that is not a color; blank entries are skipped.
pub open spec fn colors_in(s: Seq<char>) -> Result<Seq<u32>, Seq<char>>
    decreases s.len(),
{
    let k = first_index_of(s, ',');
    proof {
        lemma_first_index_of(s, ',');
    }
    let rest = if k < 0 {
        Ok(Seq::<u32>::empty())
    } else {
        colors_in(s.skip(k + 1))
    };
    let entry = if k < 0 {
        s
    } else {
        s.take(k)
    };
    match entry_color(entry) {
        Some(Err(m)) => Err(m),
        Some(Ok(c)) => match rest {
            Ok(p) => Ok(seq![c] + p),
            Err(m) => Err(m),
        },
        None => rest,
    }
}

/// The palette a comma-separated color list denotes, or the message of the
/// error it raises; a list without any color is an error.
pub open spec fn parsed_colors(s: Seq<char>) -> Result<Seq<u32>, Seq<char>> {
    match colors_in(s) {
        Ok(p) => if p.len() == 0 {
            Err(no_colors_message())
        } else {
            Ok(p)
        },
        Err(m) => Err(m),
    }
}

/// A prefix of valid hexadecimal digits is valid and denotes no more than the whole.
pub proof fn lemma_hex_value_prefix(d: Seq<char>, j: int)
    requires
        0 <= j <= d.len(),
        hex_value(d) is Some,
    ensures
        hex_value(d.take(j)) is Some,
        hex_value(d.take(j))->0 <= hex_value(d)->0,
    decreases d.len(),
{
    if j == d.len() {
        assert(d.take(j) =~= d);
    } else {
        lemma_hex_value_prefix(d.drop_last(), j);
        assert(d.drop_last().take(j) =~= d.take(j));
    }
}

fn is_white_space_char(c: char) -> (b: bool)
    ensures
        b == is_white_space(c),
{
    let n = c as u32;
    (0x09 <= n && n <= 0x0D) || n == 0x20 || n == 0x85 || n == 0xA0 || n == 0x1680
        || (0x2000 <= n && n <= 0x200A) || n == 0x2028 || n == 0x2029 || n == 0x202F
        || n == 0x205F || n == 0x3000
}

fn hex_digit(c: char) -> (r: Option<u32>)
    ensures
        match hex_digit_value(c) {
            Some(d) => r == Some(d as u32),
            None => r is None,
        },
{
    if '0' <= c && c <= '9' {
        Some((c as u32) - ('0' as u32))
    } else if 'a' <= c && c <= 'f' {
        Some((c as u32) - ('a' as u32) + 10)
    } else if 'A' <= c && c <= 'F' {
        Some((c as u32) - ('A' as u32) + 10)
    } else {
        None
    }
}

/// Where `trim(v[lo..hi])` lies in `v`.
fn trimmed_range(v: &Vec<char>, lo: usize, hi: usize) -> (r: (usize, usize))
    requires
        lo <= hi <= v.len(),
    ensures
        lo <= r.0 <= r.1 <= hi,
        trim(v@.subrange(lo as int, hi as int)) == v@.subrange(r.0 as int, r.1 as int),
{
    let mut a = lo;
    while a < hi && is_white_space_char(v[a])
        invariant
            lo <= a <= hi <= v.len(),
            trim_start(v@.subrange(lo as int, hi as int)) == trim_start(v@.subrange(a as int, hi as int)),
        decreases hi - a,
    {
        assert(v@.subrange(a as int, hi as int).drop_first() =~= v@.subrange(a + 1, hi as int));
        a = a + 1;
    }
    let mut b = hi;
    while b > a && is_white_space_char(v[b - 1])
        invariant
            a <= b <= hi <= v.len(),
            trim_end(v@.subrange(a as int, hi as int)) == trim_end(v@.subrange(a as int, b as int)),
        decreases b,
    {
        assert(v@.subrange(a as int, b as int).drop_last() =~= v@.subrange(a as int, b - 1));
        b = b - 1;
    }
    (a, b)
}

/// Parses `v[lo..hi]` as `u32::from_str_radix(.., 16)` does.
fn parse_hex_range(v: &Vec<char>, lo: usize, hi: usize) -> (r: Option<u32>)
    requires
        lo <= hi <= v.len(),
    ensures
        r == parse_hex_u32(v@.subrange(lo as int, hi as int)),
{
    let ghost s = v@.subrange(lo as int, hi as int);
    let mut start = lo;
    if lo < hi && v[lo] == '+' {
        start = lo + 1;
    }
    let ghost d = v@.subrange(start as int, hi as int);
    assert(d =~= (if s.len() > 0 && s[0] == '+' { s.drop_first() } else { s }));
    if start == hi {
        return None;
    }
    let mut acc: u64 = 0;
    let mut i = start;
    assert(d.take(0) =~= Seq::<char>::empty());
    while i < hi
        invariant
            lo <= start <= i <= hi <= v.len(),
            d == v@.subrange(start as int, hi as int),
            s == v@.subrange(lo as int, hi as int),
            d == (if s.len() > 0 && s[0] == '+' { s.drop_first() } else { s }),
            d.len() > 0,
            hex_value(d.take(i - start)) == Some(acc as nat),
            acc <= u32::MAX,
        decreases hi - i,
    {
        assert(d.take(i + 1 - start).drop_last() =~= d.take(i - start));
        assert(d.take(i + 1 - start).last() == v@[i as int]);
        match hex_digit(v[i]) {
            None => {
                proof {
                    assert(hex_value(d.take(i + 1 - start)) is None);
                    if hex_value(d) is Some {
                        lemma_hex_value_prefix(d, i + 1 - start);
                    }
                }
                return None;
            },
            Some(x) => {
                let next = acc * 16 + x as u64;
                if next > 0xFFFF_FFFF {
                    proof {
                        if hex_value(d) is Some {
                            lemma_hex_value_prefix(d, i + 1 - start);
                        }
                    }
                    return None;
                }
                acc = next;
            },
        }
        i = i + 1;
    }
    assert(d.take(hi - start) =~= d);
    Some(acc as u32)
}

/// What the entry `v[lo..hi]` of a color list contributes (see `entry_color`).
fn entry_color_of(v: &Vec<char>, lo: usize, hi: usize) -> (r: Option<Result<u32, String>>)
    requires
        lo <= hi <= v.len(),
    ensures
        match entry_color(v@.subrange(lo as int, hi as int)) {
            None => r is None,
            Some(Ok(c)) => r == Some(Ok::<u32, String>(c)),
            Some(Err(m)) => r matches Some(Err(msg)) && msg@ == m,
        },
{
    let (a, b) = trimmed_range(v, lo, hi);
    if a == b {
        return None;
    }
    let ghost t = v@.subrange(a as int, b as int);
    let mut c = a;
    if v[a] == '#' {
        c = a + 1;
    } else if b - a >= 2 && v[a] == '0' && (v[a + 1] == 'x' || v[a + 1] == 'X') {
        c = a + 2;
    }
    assert(strip_color_prefix(t) =~= v@.subrange(c as int, b as int));
    match parse_hex_range(v, c, b) {
        None => {
            let mut msg = String::from_str("Invalid hex color: '");
            let entry = string_of(v, c, b);
            msg.append(entry.as_str());
            msg.append("'. Expected format: RRGGBB or #RRGGBB");
            Some(Err(msg))
        },
        Some(color) => {
            if color > MAX_COLOR {
                let mut msg = String::from_str("Color value too large: 0x");
                push_digits(&mut msg, color, 16);
                msg.append(". Must be in range 0x000000-0xFFFFFF");
                Some(Err(msg))
            } else {
                Some(Ok(color))
            }
        },
    }
}

/// Index of the first comma in `v[lo..]`, if any.
fn next_comma(v: &Vec<char>, lo: usize) -> (r: Option<usize>)
    requires
        lo <= v.len(),
    ensures
        match r {
            Some(k) => lo <= k < v.len() && first_index_of(v@.skip(lo as int), ',') == k - lo,
            None => first_index_of(v@.skip(lo as int), ',') == -1,
        },
{
    let ghost s = v@.skip(lo as int);
    let mut i = lo;
    while i < v.len()
        invariant
            lo <= i <= v.len(),
            s == v@.skip(lo as int),
            lacks(s.take(i - lo), ','),
        decreases v.len() - i,
    {
        if v[i] == ',' {
            proof {
                lemma_first_index_of(s, ',');
                let k = first_index_of(s, ',');
                if k >= 0 && k < i - lo {
                    assert(s.take(i - lo)[k] == s[k]);
                }
                if k > i - lo {
                    assert(s.take(k)[i - lo] == s[i - lo]);
                }
                if k < 0 {
                    assert(s[i - lo] == ',');
                }
            }
            return Some(i);
        }
        assert(s.take(i + 1 - lo) =~= s.take(i - lo).push(v@[i as int]));
        i = i + 1;
    }
    proof {
        lemma_first_index_of(s, ',');
        assert(s.take(v.len() - lo) =~= s);
        let k = first_index_of(s, ',');
        if k >= 0 {
            assert(s.take(v.len() - lo)[k] == s[k]);
        }
    }
    None
}

/// Parses comma-separated hex colors ("FF0000", "#FF0000", "0xFF0000",
/// "ff0000", surrounded by any white space) into 0xRRGGBB values; blank
/// entries are skipped. An entry that is not a hexadecimal number, a value
/// above 0xFFFFFF, or a list without any color is an invalid configuration.
pub fn parse_colors(colors_str: &str) -> (r: Result<Vec<u32>, FlagError>)
    ensures
        match parsed_colors(colors_str@) {
            Ok(p) => r matches Ok(palette) && palette@ == p,
            Err(m) => r matches Err(FlagError::InvalidConfig(msg)) && msg@ == m,
        },
{
    let v = chars_of(colors_str);
    let mut palette: Vec<u32> = Vec::new();
    let mut start: usize = 0;
    assert(v@.skip(0) =~= v@);
    assert(palette@ + Seq::<u32>::empty() =~= palette@);
    loop
        invariant
            start <= v.len(),
            v@ == colors_str@,
            colors_in(v@) == (match colors_in(v@.skip(start as int)) {
                Ok(p) => Ok(palette@ + p),
                Err(m) => Err(m),
            }),
        decreases v.len() - start,
    {
        let ghost s = v@.skip(start as int);
        let comma = next_comma(&v, start);
        proof {
            lemma_first_index_of(s, ',');
        }
        let end = match comma {
            Some(k) => k,
            None => v.len(),
        };
        let ghost entry = v@.subrange(start as int, end as int);
        let ghost rest = if comma is None {
            Ok(Seq::<u32>::empty())
        } else {
            colors_in(v@.skip(end + 1))
        };
        proof {
            if comma is None {
                assert(entry =~= s);
            } else {
                assert(entry =~= s.take(end - start));
                assert(s.skip(end - start + 1) =~= v@.skip(end + 1));
            }
            assert(colors_in(s) == (match entry_color(entry) {
                Some(Err(m)) => Err(m),
                Some(Ok(c)) => match rest {
                    Ok(p) => Ok(seq![c] + p),
                    Err(m) => Err(m),
                },
                None => rest,
            }));
        }
        match entry_color_of(&v, start, end) {
            Some(Err(msg)) => {
                return Err(FlagError::InvalidConfig(msg));
            },
            Some(Ok(c)) => {
                proof {
                    if let Ok(p) = rest {
                        assert(palette@ + (seq![c] + p) =~= palette@.push(c) + p);
                    }
                }
                palette.push(c);
            },
            None => {},
        }
        match comma {
            None => {
                assert(palette@ + Seq::<u32>::empty() =~= palette@);
                if palette.len() == 0 {
                    return Err(FlagError::InvalidConfig(String::from_str("At least one color must be provided")));
                }
                return Ok(palette);
            },
            Some(k) => {
                start = k + 1;
            },
        }
    }
}

proof fn lemma_colors_in_bounded(s: Seq<char>)
    ensures
        colors_in(s) matches Ok(p) ==> forall|i: int| 0 <= i < p.len() ==> p[i] <= MAX_COLOR,
    decreases s.len(),
{
    let k = first_index_of(s, ',');
    lemma_first_index_of(s, ',');
    if k >= 0 {
        lemma_colors_in_bounded(s.skip(k + 1));
    }
    let entry = if k < 0 { s } else { s.take(k) };
    if let Some(Ok(c)) = entry_color(entry) {
        if let Ok(p) = colors_in(s) {
            assert forall|i: int| 0 <= i < p.len() implies p[i] <= MAX_COLOR by {
                if i > 0 {
                    if k >= 0 {
                        assert(p[i] == colors_in(s.skip(k + 1))->Ok_0[i - 1]);
                    }
                }
            }
        }
    }
}

/// A successfully parsed palette holds at least one color, and every color
/// is at most 0xFFFFFF.
pub proof fn parsed_palette_is_valid(s: Seq<char>)
    ensures
        parsed_colors(s) matches Ok(p) ==> p.len() > 0 && forall|i: int| 0 <= i < p.len() ==> p[i] <= MAX_COLOR,
{
    lemma_colors_in_bounded(s);
}

proof fn lemma_hex_digit_char(d: nat)
    requires
        d < 16,
    ensures
        hex_digit_value(digit_char(d)) == Some(d),
        !is_white_space(digit_char(d)),
        digit_char(d) != ',',
        digit_char(d) != '#',
        digit_char(d) != '+',
        digit_char(d) != 'x',
        digit_char(d) != 'X',
{
}

/// A hexadecimal digit that is no white space, separator or prefix character.
spec fn plain_hex_digit(c: char) -> bool {
    &&& hex_digit_value(c) is Some
    &&& !is_white_space(c)
    &&& c != ','
    &&& c != '#'
    &&& c != '+'
    &&& c != 'x'
    &&& c != 'X'
}

/// The upper-case hexadecimal digits of `n`, and what they denote.
proof fn lemma_hex_upper_digits(n: nat)
    ensures
        hex_value(hex_upper(n)) == Some(n),
        hex_upper(n).len() > 0,
        forall|i: int| 0 <= i < hex_upper(n).len() ==> plain_hex_digit(#[trigger] hex_upper(n)[i]),
    decreases n,
{
    if n < 16 {
        lemma_hex_digit_char(n);
        let s = hex_upper(n);
        assert(s == seq![digit_char(n)]);
        assert(s.drop_last() =~= Seq::<char>::empty());
        assert(hex_value(s.drop_last()) == Some(0nat));
        assert(s.last() == digit_char(n));
    } else {
        lemma_hex_upper_digits(n / 16);
        lemma_hex_digit_char(n % 16);
        let high = hex_upper(n / 16);
        assert(hex_upper(n) == high.push(digit_char(n % 16)));
        assert(hex_upper(n).drop_last() =~= high);
        assert(n == (n / 16) * 16 + n % 16);
        assert forall|i: int| 0 <= i < hex_upper(n).len() implies plain_hex_digit(#[trigger] hex_upper(n)[i]) by {
            if i < high.len() {
                assert(hex_upper(n)[i] == high[i]);
            }
        }
    }
}

/// A color written in upper-case hexadecimal (as error messages show it)
/// parses back to that color.
pub proof fn hex_color_parses_back(c: u32)
    requires
        c <= MAX_COLOR,
    ensures
        parsed_colors(hex_upper(c as nat)) == Ok::<Seq<u32>, Seq<char>>(seq![c]),
{
    let s = hex_upper(c as nat);
    lemma_hex_upper_digits(c as nat);
    lemma_first_index_of(s, ',');
    if first_index_of(s, ',') >= 0 {
        assert(plain_hex_digit(s[first_index_of(s, ',')]));
    }
    assert(plain_hex_digit(s[0]));
    assert(plain_hex_digit(s[s.len() - 1]));
    if s.len() >= 2 {
        assert(plain_hex_digit(s[1]));
    }
    assert(!is_white_space(s[0]));
    assert(!is_white_space(s.last()));
    assert(trim_start(s) == s);
    assert(trim(s) == s);
    assert(strip_color_prefix(s) == s);
    assert(parse_hex_u32(s) == Some(c));
    assert(entry_color(s) == Some(Ok::<u32, Seq<char>>(c)));
    assert(seq![c] + Seq::<u32>::empty() =~= seq![c]);
}

/// The lowest `k` hexadecimal digits of `n`, upper case, most significant
/// first (`format!("{:0k$X}", n)` for `n` below `hex_bound(k)`).
pub open spec fn fixed_hex(n: nat, k: nat) -> Seq<char>
    decreases k,
{
    if k == 0 {
        Seq::empty()
    } else {
        fixed_hex(n / 16, (k - 1) as nat).push(digit_char(n % 16))
    }
}

/// 16 to the power `k`.
pub open spec fn hex_bound(k: nat) -> nat
    decreases k,
{
    if k == 0 {
        1
    } else {
        16 * hex_bound((k - 1) as nat)
    }
}

/// Colors written `#RRGGBB` (upper case) and joined by commas.
pub open spec fn color_list(v: Seq<u32>) -> Seq<char>
    decreases v.len(),
{
    if v.len() == 0 {
        Seq::empty()
    } else if v.len() == 1 {
        seq!['#'] + fixed_hex(v[0] as nat, 6)
    } else {
        seq!['#'] + fixed_hex(v[0] as nat, 6) + seq![','] + color_list(v.drop_first())
    }
}

proof fn lemma_fixed_hex(n: nat, k: nat)
    requires
        n < hex_bound(k),
    ensures
        hex_value(fixed_hex(n, k)) == Some(n),
        fixed_hex(n, k).len() == k,
        forall|i: int| 0 <= i < k ==> plain_hex_digit(#[trigger] fixed_hex(n, k)[i]),
    decreases k,
{
    if k > 0 {
        let hb = hex_bound((k - 1) as nat);
        assert(n / 16 < hb) by (nonlinear_arith)
            requires n < 16 * hb;
        lemma_fixed_hex(n / 16, (k - 1) as nat);
        lemma_hex_digit_char(n % 16);
        let high = fixed_hex(n / 16, (k - 1) as nat);
        assert(fixed_hex(n, k).drop_last() =~= high);
        assert(n == (n / 16) * 16 + n % 16);
        assert forall|i: int| 0 <= i < k implies plain_hex_digit(#[trigger] fixed_hex(n, k)[i]) by {
            if i < k - 1 {
                assert(fixed_hex(n, k)[i] == high[i]);
            }
        }
    }
}

proof fn lemma_first_index_of_marker(a: Seq<char>, c: char, b: Seq<char>)
    requires
        lacks(a, c),
    ensures
        first_index_of(a + seq![c] + b, c) == a.len(),
{
    let s = a + seq![c] + b;
    lemma_first_index_of(s, c);
    let k = first_index_of(s, c);
    assert(s[a.len() as int] == c);
    if 0 <= k < a.len() {
        assert(s[k] == a[k]);
    } else if k > a.len() {
        assert(s.take(k)[a.len() as int] == c);
    }
}

/// A `#RRGGBB` entry is that color.
proof fn lemma_entry_of_hex_color(c: u32)
    requires
        c <= MAX_COLOR,
    ensures
        entry_color(seq!['#'] + fixed_hex(c as nat, 6)) == Some(Ok::<u32, Seq<char>>(c)),
        (seq!['#'] + fixed_hex(c as nat, 6)).len() == 7,
        lacks(seq!['#'] + fixed_hex(c as nat, 6), ','),
{
    assert(hex_bound(6) == 0x100_0000) by {
        reveal_with_fuel(hex_bound, 7);
    }
    let h = fixed_hex(c as nat, 6);
    lemma_fixed_hex(c as nat, 6);
    let e = seq!['#'] + h;
    assert(e[0] == '#');
    assert(plain_hex_digit(h[5]));
    assert(e.last() == h[5]);
    assert(!is_white_space('#'));
    assert(trim_start(e) == e);
    assert(trim_end(e) == e);
    assert(e.drop_first() =~= h);
    assert(strip_color_prefix(e) == h);
    assert(plain_hex_digit(h[0]));
    assert(parse_hex_u32(h) == Some(c));
    assert forall|i: int| 0 <= i < e.len() implies e[i] != ',' by {
        if i > 0 {
            assert(e[i] == h[i - 1]);
            assert(plain_hex_digit(h[i - 1]));
        }
    }
}

proof fn lemma_colors_in_color_list(v: Seq<u32>)
    requires
        v.len() > 0,
        forall|i: int| 0 <= i < v.len() ==> v[i] <= MAX_COLOR,
    ensures
        colors_in(color_list(v)) == Ok::<Seq<u32>, Seq<char>>(v),
    decreases v.len(),
{
    let c = v[0];
    let e = seq!['#'] + fixed_hex(c as nat, 6);
    lemma_entry_of_hex_color(c);
    let s = color_list(v);
    if v.len() == 1 {
        assert(s == e);
        lemma_first_index_of(s, ',');
        if first_index_of(s, ',') >= 0 {
            assert(s[first_index_of(s, ',')] != ',');
        }
        assert(seq![c] + Seq::<u32>::empty() =~= v);
    } else {
        let tail = v.drop_first();
        lemma_colors_in_color_list(tail);
        assert(s == e + seq![','] + color_list(tail));
        lemma_first_index_of_marker(e, ',', color_list(tail));
        assert(s.take(7) =~= e);
        assert(s.skip(8) =~= color_list(tail));
        assert(seq![c] + tail =~= v);
    }
}

/// Colors written `#RRGGBB` (upper case, zero-padded) and joined by commas
/// parse back to the same colors.
pub proof fn color_list_parses_back(v: Seq<u32>)
    requires
        v.len() > 0,
        forall|i: int| 0 <= i < v.len() ==> v[i] <= MAX_COLOR,
    ensures
        parsed_colors(color_list(v)) == Ok::<Seq<u32>, Seq<char>>(v),
{
    lemma_colors_in_color_list(v);
}

} // verus!
