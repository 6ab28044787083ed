//! Bit widths of the ports of a Verilog function signature: every bracketed
//! range `[msb:lsb]` gives a port of `msb - lsb + 1` bits.
use vstd::prelude::*;

verus! {

broadcast use vstd::string::axiom_spec_iter;

/// Why a signature could not be read.
#[derive(Copy, Clone, Debug, PartialEq, Eq, Structural)]
pub enum SignatureError {
    /// A `[` has no `]` after it.
    MissingCloseBracket,
    /// A bound of a range is not a decimal number that fits in `usize`.
    InvalidNumber(NumberError),
}

/// Why a bound is not a `usize`, as `str::parse::<usize>` tells it.
#[derive(Copy, Clone, Debug, PartialEq, Eq, Structural)]
pub enum NumberError {
    /// The bound is empty.
    Empty,
    /// A character that is not a decimal digit came first (a lone `+` or
    /// `-` counts as one).
    InvalidDigit,
    /// The value exceeded `usize::MAX` first.
    PosOverflow,
}

/// Whether `c` is white space in the Unicode sense (`char::is_whitespace`).
pub open spec fn is_white_space(c: char) -> bool {
    ||| '\u{9}' <= c <= '\u{d}'
    ||| c == ' '
    ||| c == '\u{85}'
    ||| c == '\u{a0}'
    ||| c == '\u{1680}'
    ||| '\u{2000}' <= c <= '\u{200a}'
    ||| c == '\u{2028}'
    ||| c == '\u{2029}'
    ||| c == '\u{202f}'
    ||| c == '\u{205f}'
    ||| c == '\u{3000}'
}

/// The index of the first `c` in `s`, or -1 when there is none.
#[verifier::opaque]
pub open spec fn first_index(s: Seq<char>, c: char) -> int {
    if exists|i: int| 0 <= i < s.len() && s[i] == c {
        choose|i: int| 0 <= i < s.len() && s[i] == c && forall|j: int| 0 <= j < i ==> s[j] != c
    } else {
        -1
    }
}

/// `first_index` is -1 when `c` does not occur, and otherwise the least
/// index of `c`.
pub proof fn lemma_first_index(s: Seq<char>, c: char)
    ensures
        first_index(s, c) == -1 || (0 <= first_index(s, c) < s.len() && s[first_index(s, c)] == c
            && forall|j: int| 0 <= j < first_index(s, c) ==> s[j] != c),
        first_index(s, c) == -1 ==> forall|j: int| 0 <= j < s.len() ==> s[j] != c,
{
    reveal(first_index);
    if exists|i: int| 0 <= i < s.len() && s[i] == c {
        let i = choose|i: int| 0 <= i < s.len() && s[i] == c;
        lemma_first_exists(s, c, i);
    }
}

/// Where `c` occurs, a first occurrence exists.
pub proof fn lemma_first_exists(s: Seq<char>, c: char, i: int)
    requires
        0 <= i < s.len(),
        s[i] == c,
    ensures
        exists|f: int| 0 <= f < s.len() && s[f] == c && forall|j: int| 0 <= j < f ==> s[j] != c,
    decreases i,
{
    if exists|j: int| 0 <= j < i && s[j] == c {
        let j = choose|j: int| 0 <= j < i && s[j] == c;
        lemma_first_exists(s, c, j);
    } else {
        assert(forall|j: int| 0 <= j < i ==> s[j] != c);
    }
}

/// `s` without its leading white space.
pub open spec fn trim_front(s: Seq<char>) -> Seq<char>
    decreases s.len(),
{
    if s.len() > 0 && is_white_space(s[0]) {
        trim_front(s.drop_first())
    } else {
        s
    }
}

/// `s` without its trailing white space.
pub open spec fn trim_back(s: Seq<char>) -> Seq<char>
    decreases s.len(),
{
    if s.len() > 0 && is_white_space(s.last()) {
        trim_back(s.drop_last())
    } else {
        s
    }
}

/// `s` without leading and trailing white space (`str::trim`).
pub open spec fn trim(s: Seq<char>) -> Seq<char> {
    trim_back(trim_front(s))
}

/// An ASCII decimal digit.
pub open spec fn is_digit(c: char) -> bool {
    '0' <= c <= '9'
}

/// Reads the digits `ds` from left to right onto the value `acc`: stops
/// with `InvalidDigit` at the first character that is not a digit, or with
/// `PosOverflow` at the first digit that takes the value past `usize::MAX`.
pub open spec fn digits_from(ds: Seq<char>, acc: int) -> Result<usize, NumberError>
    decreases ds.len(),
{
    if ds.len() == 0 {
        Ok(acc as usize)
    } else if !is_digit(ds[0]) {
        Err(NumberError::InvalidDigit)
    } else if acc * 10 + (ds[0] as int - '0' as int) > usize::MAX {
        Err(NumberError::PosOverflow)
    } else {
        digits_from(ds.drop_first(), acc * 10 + (ds[0] as int - '0' as int))
    }
}

/// `s` without one leading `+`, if it has one.
pub open spec fn unsigned_digits(s: Seq<char>) -> Seq<char> {
    if s.len() > 0 && s[0] == '+' {
        s.drop_first()
    } else {
        s
    }
}

/// `str::parse::<usize>`: empty text is `Empty`; a lone `+` or `-` is
/// `InvalidDigit`; otherwise one leading `+` is dropped and the rest is read
/// as decimal digits by `digits_from`.
pub open spec fn parse_usize(s: Seq<char>) -> Result<usize, NumberError> {
    if s.len() == 0 {
        Err(NumberError::Empty)
    } else if s.len() == 1 && (s[0] == '+' || s[0] == '-') {
        Err(NumberError::InvalidDigit)
    } else {
        digits_from(unsigned_digits(s), 0)
    }
}

/// The width of a port `[msb:lsb]`: `msb - lsb + 1`, or 1 when `lsb`
/// exceeds `msb`.
pub open spec fn port_width(msb: usize, lsb: usize) -> int {
    if msb >= lsb {
        msb - lsb + 1
    } else {
        1
    }
}

/// What one bracketed range holds: `Ok(Some((msb, lsb)))` for `msb:lsb`,
/// `Ok(None)` when it holds no `:`, and an error when a bound is not a
/// number.
#[verifier::opaque]
pub open spec fn range_bounds(range: Seq<char>) -> Result<Option<(usize, usize)>, SignatureError> {
    let colon = first_index(range, ':');
    if colon < 0 {
        Ok(None)
    } else {
        match parse_usize(trim(range.subrange(0, colon))) {
            Err(e) => Err(SignatureError::InvalidNumber(e)),
            Ok(msb) => match parse_usize(trim(range.subrange(colon + 1, range.len() as int))) {
                Err(e) => Err(SignatureError::InvalidNumber(e)),
                Ok(lsb) => Ok(Some((msb, lsb))),
            },
        }
    }
}

/// Reads `s` from left to right. Each `[` opens a range that ends at the
/// next `]`; a range holding a `:` is `msb:lsb` and contributes its bounds,
/// other ranges are skipped. Returns the bounds read, and the error met, if
/// any, at which reading stopped.
#[verifier::opaque]
pub open spec fn scan_bounds(s: Seq<char>) -> (Seq<(usize, usize)>, Option<SignatureError>)
    decreases s.len(),
{
    let start = first_index(s, '[');
    proof {
        lemma_first_index(s, '[');
    }
    if start < 0 {
        (Seq::empty(), None)
    } else {
        let after = s.subrange(start + 1, s.len() as int);
        let end = first_index(after, ']');
        proof {
            lemma_first_index(after, ']');
        }
        if end < 0 {
            (Seq::empty(), Some(SignatureError::MissingCloseBracket))
        } else {
            let rest = after.subrange(end + 1, after.len() as int);
            match range_bounds(after.subrange(0, end)) {
                Ok(None) => scan_bounds(rest),
                Ok(Some(b)) => {
                    let tail = scan_bounds(rest);
                    (seq![b] + tail.0, tail.1)
                },
                Err(e) => (Seq::empty(), Some(e)),
            }
        }
    }
}

/// The port widths of a sequence of `(msb, lsb)` bounds.
pub open spec fn widths_of(bounds: Seq<(usize, usize)>) -> Seq<int> {
    bounds.map_values(|b: (usize, usize)| port_width(b.0, b.1))
}

/// The widths read from `s`, and the error met, if any, at which reading
/// stopped.
pub open spec fn scan_widths(s: Seq<char>) -> (Seq<int>, Option<SignatureError>) {
    (widths_of(scan_bounds(s).0), scan_bounds(s).1)
}

/// The characters of a string, in order.
fn chars_of(s: &str) -> (v: Vec<char>)
    ensures
        v@ == s@,
{
    let mut v: Vec<char> = Vec::new();
    for c in it: s.chars()
        invariant
            v@ == it.seq().take(it.index() as int),
    {
        v.push(c);
    }
    v
}

/// The index of the first `c` in `s[lo..hi]`, relative to `lo`.
fn find_char(s: &Vec<char>, lo: usize, hi: usize, c: char) -> (r: Option<usize>)
    requires
        lo <= hi <= s.len(),
    ensures
        r matches Some(i) ==> i == first_index(s@.subrange(lo as int, hi as int), c) && i < hi - lo
            && s@[lo + i] == c,
        r is None ==> first_index(s@.subrange(lo as int, hi as int), c) == -1,
{
    let ghost t = s@.subrange(lo as int, hi as int);
    let mut i = lo;
    while i < hi
        invariant
            lo <= i <= hi <= s.len(),
            t == s@.subrange(lo as int, hi as int),
            forall|j: int| 0 <= j < i - lo ==> t[j] != c,
        decreases hi - i,
    {
        if s[i] == c {
            proof {
                let k = (i - lo) as int;
                assert(t[k] == c);
                lemma_first_index(t, c);
                let f = first_index(t, c);
                if f < k && f != -1 {
                    assert(t[f] != c);
                }
                if k < f {
                    assert(t[k] != c);
                }
            }
            return Some(i - lo);
        }
        i += 1;
    }
    proof {
        lemma_first_index(t, c);
        let f = first_index(t, c);
        if f != -1 {
            assert(t[f] != c);
        }
    }
    None
}

/// `char::is_whitespace`.
fn white_space(c: char) -> (r: bool)
    ensures
        r == is_white_space(c),
{
    ('\u{9}' <= c && c <= '\u{d}') || c == ' ' || c == '\u{85}' || c == '\u{a0}' || c
        == '\u{1680}' || ('\u{2000}' <= c && c <= '\u{200a}') || c == '\u{2028}' || c
        == '\u{2029}' || c == '\u{202f}' || c == '\u{205f}' || c == '\u{3000}'
}

/// The bounds of `s[lo..hi]` with leading and trailing white space removed.
fn trim_bounds(s: &Vec<char>, lo: usize, hi: usize) -> (r: (usize, usize))
    requires
        lo <= hi <= s.len(),
    ensures
        lo <= r.0 <= r.1 <= hi,
        s@.subrange(r.0 as int, r.1 as int) == trim(s@.subrange(lo as int, hi as int)),
{
    let mut a = lo;
    while a < hi && white_space(s[a])
        invariant
            lo <= a <= hi <= s.len(),
            trim_front(s@.subrange(lo as int, hi as int)) == trim_front(
                s@.subrange(a as int, hi as int),
            ),
        decreases hi - a,
    {
        assert(s@.subrange(a as int, hi as int).drop_first() =~= s@.subrange(a + 1, hi as int));
        a += 1;
    }
    let mut b = hi;
    while b > a && white_space(s[b - 1])
        invariant
            lo <= a <= b <= hi <= s.len(),
            trim_front(s@.subrange(lo as int, hi as int)) == s@.subrange(a as int, hi as int),
            trim_back(s@.subrange(a as int, hi as int)) == trim_back(s@.subrange(a as int, b as int)),
        decreases b - a,
    {
        assert(s@.subrange(a as int, b as int).drop_last() =~= s@.subrange(a as int, b - 1));
        b -= 1;
    }
    (a, b)
}

/// `str::parse::<usize>` on `s[lo..hi]`.
fn parse_number(s: &Vec<char>, lo: usize, hi: usize) -> (r: Result<usize, NumberError>)
    requires
        lo <= hi <= s.len(),
    ensures
        r == parse_usize(s@.subrange(lo as int, hi as int)),
{
    let ghost t = s@.subrange(lo as int, hi as int);
    if lo == hi {
        return Err(NumberError::Empty);
    }
    if hi - lo == 1 && (s[lo] == '+' || s[lo] == '-') {
        return Err(NumberError::InvalidDigit);
    }
    let mut i = lo;
    if s[i] == '+' {
        i += 1;
    }
    let ghost ds = s@.subrange(i as int, hi as int);
    assert(ds =~= unsigned_digits(t));
    assert(ds.subrange(0, ds.len() as int) =~= ds);
    let mut value: usize = 0;
    let mut j = i;
    while j < hi
        invariant
            lo <= i <= j <= hi <= s.len(),
            ds == s@.subrange(i as int, hi as int),
            t == s@.subrange(lo as int, hi as int),
            parse_usize(t) == digits_from(ds, 0),
            digits_from(ds, 0) == digits_from(ds.subrange(j - i, ds.len() as int), value as int),
        decreases hi - j,
    {
        let ghost rest = ds.subrange(j - i, ds.len() as int);
        assert(rest[0] == s@[j as int]);
        assert(rest.drop_first() =~= ds.subrange(j - i + 1, ds.len() as int));
        let c = s[j];
        if !('0' <= c && c <= '9') {
            return Err(NumberError::InvalidDigit);
        }
        let d = (c as u32 - '0' as u32) as usize;
        match value.checked_mul(10) {
            Some(v10) => match v10.checked_add(d) {
                Some(v) => {
                    value = v;
                },
                None => {
                    return Err(NumberError::PosOverflow);
                },
            },
            None => {
                return Err(NumberError::PosOverflow);
            },
        }
        j += 1;
    }
    Ok(value)
}

/// `scan_bounds` on text without `[`.
proof fn lemma_scan_no_open(s: Seq<char>, pos: int)
    requires
        0 <= pos <= s.len(),
        first_index(s.subrange(pos, s.len() as int), '[') == -1,
    ensures
        scan_bounds(s.subrange(pos, s.len() as int)) == (Seq::<(usize, usize)>::empty(), None::<SignatureError>),
{
    reveal(scan_bounds);
}

/// `scan_bounds` on text whose first `[` has no `]` after it.
proof fn lemma_scan_no_close(s: Seq<char>, pos: int, a: int)
    requires
        0 <= pos < a <= s.len(),
        a - 1 - pos == first_index(s.subrange(pos, s.len() as int), '['),
        first_index(s.subrange(a, s.len() as int), ']') == -1,
    ensures
        scan_bounds(s.subrange(pos, s.len() as int)) == (
            Seq::<(usize, usize)>::empty(),
            Some(SignatureError::MissingCloseBracket),
        ),
{
    reveal(scan_bounds);
    let rest = s.subrange(pos, s.len() as int);
    assert(rest.subrange(a - pos, rest.len() as int) =~= s.subrange(a, s.len() as int));
}

/// `scan_bounds` on text whose first range is `s[a..rend]`.
proof fn lemma_scan_range(s: Seq<char>, pos: int, a: int, rend: int)
    requires
        0 <= pos < a <= rend < s.len(),
        a - 1 - pos == first_index(s.subrange(pos, s.len() as int), '['),
        rend - a == first_index(s.subrange(a, s.len() as int), ']'),
    ensures
        ({
            let tail = scan_bounds(s.subrange(rend + 1, s.len() as int));
            scan_bounds(s.subrange(pos, s.len() as int)) == match range_bounds(s.subrange(a, rend)) {
                Ok(None) => tail,
                Ok(Some(b)) => (seq![b] + tail.0, tail.1),
                Err(e) => (Seq::<(usize, usize)>::empty(), Some(e)),
            }
        }),
{
    reveal(scan_bounds);
    let rest = s.subrange(pos, s.len() as int);
    let after = rest.subrange(a - pos, rest.len() as int);
    assert(after =~= s.subrange(a, s.len() as int));
    assert(after.subrange(0, rend - a) =~= s.subrange(a, rend));
    assert(after.subrange(rend - a + 1, after.len() as int) =~= s.subrange(rend + 1, s.len() as int));
}

/// The bounds that the range `s[lo..hi]` holds, as `range_bounds` states it.
fn read_range(s: &Vec<char>, lo: usize, hi: usize) -> (r: Result<Option<(usize, usize)>, SignatureError>)
    requires
        lo <= hi <= s.len(),
    ensures
        r == range_bounds(s@.subrange(lo as int, hi as int)),
{
    let ghost range = s@.subrange(lo as int, hi as int);
    reveal(range_bounds);
    match find_char(s, lo, hi, ':') {
        None => Ok(None),
        Some(ci) => {
            let colon = lo + ci;
            assert(range.subrange(0, ci as int) =~= s@.subrange(lo as int, colon as int));
            assert(range.subrange(ci + 1, range.len() as int) =~= s@.subrange(
                colon + 1,
                hi as int,
            ));
            let (m0, m1) = trim_bounds(s, lo, colon);
            let msb = parse_number(s, m0, m1);
            let (l0, l1) = trim_bounds(s, colon + 1, hi);
            let lsb = parse_number(s, l0, l1);
            match msb {
                Err(e) => Err(SignatureError::InvalidNumber(e)),
                Ok(m) => match lsb {
                    Err(e) => Err(SignatureError::InvalidNumber(e)),
                    Ok(l) => Ok(Some((m, l))),
                },
            }
        },
    }
}

/// The bounds read so far followed by what is left to read.
pub open spec fn resume(
    acc: Seq<(usize, usize)>,
    rest: (Seq<(usize, usize)>, Option<SignatureError>),
) -> (Seq<(usize, usize)>, Option<SignatureError>) {
    (acc + rest.0, rest.1)
}

/// Reads every bracketed `msb:lsb` range of `s`, in order, stopping at the
/// first error.
fn read_bounds(s: &Vec<char>) -> (r: (Vec<(usize, usize)>, Option<SignatureError>))
    ensures
        (r.0@, r.1) == scan_bounds(s@),
{
    let n = s.len();
    let mut bounds: Vec<(usize, usize)> = Vec::new();
    let mut pos: usize = 0;
    assert(s@.subrange(0, n as int) =~= s@);
    assert(bounds@ + scan_bounds(s@).0 =~= scan_bounds(s@).0);
    loop
        invariant
            n == s.len(),
            pos <= n,
            resume(bounds@, scan_bounds(s@.subrange(pos as int, n as int))) == scan_bounds(s@),
        decreases n - pos,
    {
        let ghost acc = bounds@;
        match find_char(s, pos, n, '[') {
            None => {
                proof {
                    lemma_scan_no_open(s@, pos as int);
                    assert(acc + Seq::<(usize, usize)>::empty() =~= acc);
                }
                return (bounds, None);
            },
            Some(st) => {
                let a = pos + st + 1;
                match find_char(s, a, n, ']') {
                    None => {
                        proof {
                            lemma_scan_no_close(s@, pos as int, a as int);
                            assert(acc + Seq::<(usize, usize)>::empty() =~= acc);
                        }
                        return (bounds, Some(SignatureError::MissingCloseBracket));
                    },
                    Some(e) => {
                        let rend = a + e;
                        let ghost tail = scan_bounds(s@.subrange(rend + 1, n as int));
                        proof {
                            lemma_scan_range(s@, pos as int, a as int, rend as int);
                        }
                        match read_range(s, a, rend) {
                            Ok(None) => {},
                            Ok(Some(b)) => {
                                bounds.push(b);
                                proof {
                                    assert(bounds@ + tail.0 =~= acc + (seq![b] + tail.0));
                                }
                            },
                            Err(err) => {
                                proof {
                                    assert(acc + Seq::<(usize, usize)>::empty() =~= acc);
                                }
                                return (bounds, Some(err));
                            },
                        }
                        pos = rend + 1;
                    },
                }
            },
        }
    }
}

/// Every width read from `signature` (up to the first error) fits in
/// `usize`.
pub open spec fn widths_fit(signature: Seq<char>) -> bool {
    forall|i: int|
        0 <= i < scan_widths(signature).0.len() ==> #[trigger] scan_widths(signature).0[i]
            <= usize::MAX
}

/// Whether every width read from `signature` fits in `usize`, which
/// `parse_bit_widths` needs: a width fails to fit only for the range
/// `[usize::MAX:0]`.
pub fn bit_widths_fit(signature: &str) -> (r: bool)
    ensures
        r == widths_fit(signature@),
{
    let s = chars_of(signature);
    let (bounds, _) = read_bounds(&s);
    let ghost ws = widths_of(bounds@);
    let mut i: usize = 0;
    while i < bounds.len()
        invariant
            0 <= i <= bounds.len(),
            ws == widths_of(bounds@),
            ws == scan_widths(signature@).0,
            forall|k: int| 0 <= k < i ==> #[trigger] ws[k] <= usize::MAX,
        decreases bounds.len() - i,
    {
        let (m, l) = bounds[i];
        if m == usize::MAX && l == 0 {
            assert(ws[i as int] == port_width(m, l));
            return false;
        }
        i += 1;
    }
    true
}

/// The width of every port of a Verilog function signature, in order: each
/// bracketed range `[msb:lsb]` gives `msb - lsb + 1` bits (1 when `lsb`
/// exceeds `msb`); bounds may be padded with white space; brackets without a
/// `:` are skipped. A `[` without a matching `]` and a bound that is not a
/// number are errors.
pub fn parse_bit_widths(signature: &str) -> (r: Result<Vec<usize>, SignatureError>)
    requires
        widths_fit(signature@),
    ensures
        r matches Ok(v) ==> scan_widths(signature@).1 is None && v@.map_values(|w: usize| w as int)
            == scan_widths(signature@).0,
        r matches Err(e) ==> scan_widths(signature@).1 == Some(e),
{
    let s = chars_of(signature);
    let (bounds, error) = read_bounds(&s);
    if let Some(e) = error {
        return Err(e);
    }
    let ghost ws = widths_of(bounds@);
    assert forall|k: int| 0 <= k < ws.len() implies #[trigger] ws[k] <= usize::MAX by {
        assert(scan_widths(signature@).0[k] <= usize::MAX);
    }
    let mut widths: Vec<usize> = Vec::new();
    let mut i: usize = 0;
    while i < bounds.len()
        invariant
            0 <= i <= bounds.len(),
            ws == widths_of(bounds@),
            ws == scan_widths(signature@).0,
            forall|k: int| 0 <= k < ws.len() ==> #[trigger] ws[k] <= usize::MAX,
            widths@.map_values(|w: usize| w as int) == ws.subrange(0, i as int),
        decreases bounds.len() - i,
    {
        let (m, l) = bounds[i];
        assert(ws[i as int] == port_width(m, l));
        let w = m.saturating_sub(l) + 1;
        assert(ws[i as int] == w as int);
        let ghost before = widths@;
        widths.push(w);
        assert(widths@.map_values(|w: usize| w as int) =~= before.map_values(|w: usize| w as int).push(
            w as int,
        ));
        assert(ws.subrange(0, i + 1) =~= ws.subrange(0, i as int).push(ws[i as int]));
        i += 1;
    }
    assert(ws.subrange(0, bounds.len() as int) =~= ws);
    Ok(widths)
}

} // verus!
