//! Character-level text helpers shared by the parsers: whitespace and
//! trimming, decimal rendering, UTF-8 lengths, and the few conversions
//! that only std can make.
use vstd::prelude::*;
use vstd::utf8::{decode_utf8, valid_utf8};

verus! {

/// The characters of `s`.
pub fn chars_of(s: &str) -> (v: Vec<char>)
    ensures
        v@ == s@,
{
    broadcast use vstd::string::axiom_spec_iter;

    let mut v: Vec<char> = Vec::new();
    let ghost sv = s@;
    for c in it: s.chars()
        invariant
            sv == s@,
            it.seq() == sv,
            v@ == sv.subrange(0, it.index() as int),
    {
        v.push(c);
        proof {
            assert(v@ =~= sv.subrange(0, it.index() + 1));
        }
    }
    proof {
        assert(v@ =~= sv);
    }
    v
}

/// A `String` holding exactly the characters `v` (`String: FromIterator<char>`).
#[verifier::external_body]
pub(crate) fn string_from_chars(v: &[char]) -> (s: String)
    ensures
        s@ == v@,
{
    v.iter().collect()
}

/// What `format!("{:?}", s)` renders for a `str` with characters `s`:
/// the quoted, escaped form.
pub uninterp spec fn str_debug_text(s: Seq<char>) -> Seq<char>;

/// `format!("{:?}", s)` for a `str`. Its rendering (quotes, escapes) is
/// named, not spelled out: it depends on the characters alone.
#[verifier::external_body]
fn str_debug(s: &str) -> (r: String)
    ensures
        r@ == str_debug_text(s@),
{
    format!("{s:?}")
}

/// What `format!("{:?}", c)` renders for the character `c`.
pub uninterp spec fn char_debug_text(c: char) -> Seq<char>;

/// `format!("{:?}", c)` for a `char`: named, it depends on `c` alone.
#[verifier::external_body]
fn char_debug(c: char) -> (r: String)
    ensures
        r@ == char_debug_text(c),
{
    format!("{c:?}")
}

/// The characters of the `Debug` rendering of the `str` with characters `s`.
pub fn debug_chars(s: &[char]) -> (r: Vec<char>)
    ensures
        r@ == str_debug_text(s@),
{
    let st = string_from_chars(s);
    let d = str_debug(st.as_str());
    chars_of(d.as_str())
}

/// The characters of the `Debug` rendering of `c`.
pub fn char_debug_chars(c: char) -> (r: Vec<char>)
    ensures
        r@ == char_debug_text(c),
{
    let d = char_debug(c);
    chars_of(d.as_str())
}

/// Unicode `White_Space`, the set `char::is_whitespace` tests.
pub open spec fn spec_is_ws(c: char) -> bool {
    let u = c as u32;
    ||| 0x09 <= u <= 0x0D
    ||| u == 0x20
    ||| u == 0x85
    ||| u == 0xA0
    ||| u == 0x1680
    ||| 0x2000 <= u <= 0x200A
    ||| u == 0x2028
    ||| u == 0x2029
    ||| u == 0x202F
    ||| u == 0x205F
    ||| u == 0x3000
}

/// Whether `c` is whitespace.
pub fn is_ws(c: char) -> (r: bool)
    ensures
        r == spec_is_ws(c),
{
    let u = c as u32;
    (0x09 <= u && u <= 0x0D) || u == 0x20 || u == 0x85 || u == 0xA0 || u == 0x1680 || (0x2000
        <= u && u <= 0x200A) || u == 0x2028 || u == 0x2029 || u == 0x202F || u == 0x205F || u
        == 0x3000
}

/// `s` without leading whitespace.
pub open spec fn spec_trim_start(s: Seq<char>) -> Seq<char>
    decreases s.len(),
{
    if s.len() > 0 && spec_is_ws(s[0]) {
        spec_trim_start(s.subrange(1, s.len() as int))
    } else {
        s
    }
}

/// `s` without trailing whitespace.
pub open spec fn spec_trim_end(s: Seq<char>) -> Seq<char>
    decreases s.len(),
{
    if s.len() > 0 && spec_is_ws(s[s.len() - 1]) {
        spec_trim_end(s.subrange(0, s.len() - 1))
    } else {
        s
    }
}

/// `s` without leading and trailing whitespace (`str::trim`).
pub open spec fn spec_trim(s: Seq<char>) -> Seq<char> {
    spec_trim_end(spec_trim_start(s))
}

/// A copy of `s[a..b]`.
pub fn copy_range(s: &[char], a: usize, b: usize) -> (r: Vec<char>)
    requires
        a <= b <= s@.len(),
    ensures
        r@ == s@.subrange(a as int, b as int),
{
    let mut r: Vec<char> = Vec::new();
    let mut i = a;
    while i < b
        invariant
            a <= i <= b <= s@.len(),
            r@ == s@.subrange(a as int, i as int),
        decreases b - i,
    {
        r.push(s[i]);
        i = i + 1;
        proof {
            assert(r@ =~= s@.subrange(a as int, i as int));
        }
    }
    r
}

/// `s` without leading whitespace.
pub fn trim_start(s: &[char]) -> (r: Vec<char>)
    ensures
        r@ == spec_trim_start(s@),
{
    let mut i: usize = 0;
    proof {
        assert(s@.subrange(0, s@.len() as int) =~= s@);
    }
    while i < s.len() && is_ws(s[i])
        invariant
            i <= s@.len(),
            spec_trim_start(s@) == spec_trim_start(s@.subrange(i as int, s@.len() as int)),
        decreases s@.len() - i,
    {
        proof {
            let t = s@.subrange(i as int, s@.len() as int);
            assert(t.subrange(1, t.len() as int) =~= s@.subrange(i + 1, s@.len() as int));
        }
        i = i + 1;
    }
    proof {
        let t = s@.subrange(i as int, s@.len() as int);
        if i < s@.len() {
            assert(t[0] == s@[i as int]);
        }
    }
    copy_range(s, i, s.len())
}

/// `s` without leading and trailing whitespace.
pub fn trim(s: &[char]) -> (r: Vec<char>)
    ensures
        r@ == spec_trim(s@),
{
    let t = trim_start(s);
    let mut j: usize = t.len();
    proof {
        assert(t@.subrange(0, j as int) =~= t@);
    }
    while j > 0 && is_ws(t[j - 1])
        invariant
            j <= t@.len(),
            spec_trim_end(t@) == spec_trim_end(t@.subrange(0, j as int)),
        decreases j,
    {
        proof {
            let u = t@.subrange(0, j as int);
            assert(u.subrange(0, u.len() - 1) =~= t@.subrange(0, j - 1));
        }
        j = j - 1;
    }
    proof {
        let u = t@.subrange(0, j as int);
        if j > 0 {
            assert(u[u.len() - 1] == t@[j - 1]);
        }
    }
    copy_range(t.as_slice(), 0, j)
}

/// The decimal digit character for `d < 10`.
pub open spec fn spec_digit(d: nat) -> char {
    (48 + d) as char
}

/// The decimal rendering of `n` (`format!("{}", n)` for an unsigned integer).
pub open spec fn spec_dec(n: nat) -> Seq<char>
    decreases n,
{
    if n < 10 {
        seq![spec_digit(n)]
    } else {
        spec_dec(n / 10).push(spec_digit(n % 10))
    }
}

/// The decimal rendering of a signed `v`.
pub open spec fn spec_dec_signed(v: int) -> Seq<char> {
    if v < 0 {
        seq!['-'] + spec_dec((-v) as nat)
    } else {
        spec_dec(v as nat)
    }
}

/// Append the decimal rendering of `n` to `out`.
pub fn push_dec(out: &mut Vec<char>, n: u128)
    ensures
        final(out)@ == old(out)@ + spec_dec(n as nat),
    decreases n,
{
    if n >= 10 {
        push_dec(out, n / 10);
    }
    let d: u8 = (n % 10) as u8;
    let c = (48u8 + d) as char;
    proof {
        assert(c == spec_digit((n % 10) as nat));
    }
    out.push(c);
    proof {
        if n < 10 {
            assert(final(out)@ =~= old(out)@ + spec_dec(n as nat));
        } else {
            assert(final(out)@ =~= old(out)@ + spec_dec(n as nat));
        }
    }
}

/// Append the decimal rendering of the signed `v` to `out`.
pub fn push_dec_signed(out: &mut Vec<char>, v: i64)
    ensures
        final(out)@ == old(out)@ + spec_dec_signed(v as int),
{
    if v < 0 {
        out.push('-');
        let m: u64 = if v == i64::MIN {
            9223372036854775808u64
        } else {
            (-v) as u64
        };
        let ghost mid = out@;
        push_dec(out, m as u128);
        proof {
            assert(final(out)@ =~= old(out)@ + spec_dec_signed(v as int));
        }
    } else {
        push_dec(out, v as u128);
    }
}

/// Append the characters of `s` to `out`.
pub fn push_chars(out: &mut Vec<char>, s: &[char])
    ensures
        final(out)@ == old(out)@ + s@,
{
    let mut i: usize = 0;
    while i < s.len()
        invariant
            i <= s@.len(),
            out@ == old(out)@ + s@.subrange(0, i as int),
        decreases s@.len() - i,
    {
        out.push(s[i]);
        i = i + 1;
        proof {
            assert(out@ =~= old(out)@ + s@.subrange(0, i as int));
        }
    }
    proof {
        assert(s@.subrange(0, s@.len() as int) =~= s@);
    }
}

/// Append the characters of `s` to `out`.
pub fn push_str(out: &mut Vec<char>, s: &str)
    ensures
        final(out)@ == old(out)@ + s@,
{
    let c = chars_of(s);
    push_chars(out, c.as_slice());
}

/// Whether `a` and `b` hold the same characters.
pub fn chars_eq(a: &[char], b: &[char]) -> (r: bool)
    ensures
        r == (a@ == b@),
{
    if a.len() != b.len() {
        return false;
    }
    let mut i: usize = 0;
    while i < a.len()
        invariant
            i <= a@.len(),
            a@.len() == b@.len(),
            forall|j: int| 0 <= j < i ==> a@[j] == b@[j],
        decreases a@.len() - i,
    {
        if a[i] != b[i] {
            return false;
        }
        i = i + 1;
    }
    proof {
        assert(a@ =~= b@);
    }
    true
}

/// Bytes in the UTF-8 encoding of `c`.
pub open spec fn spec_utf8_width(c: char) -> nat {
    let u = c as u32;
    if u < 0x80 {
        1
    } else if u < 0x800 {
        2
    } else if u < 0x10000 {
        3
    } else {
        4
    }
}

/// Bytes in the UTF-8 encoding of `s` (`str::len`).
pub open spec fn spec_utf8_len(s: Seq<char>) -> nat
    decreases s.len(),
{
    if s.len() == 0 {
        0
    } else {
        spec_utf8_len(s.subrange(0, s.len() - 1)) + spec_utf8_width(s[s.len() - 1])
    }
}

/// Bytes in the UTF-8 encoding of `s[..n]`.
pub fn utf8_len(s: &[char], n: usize) -> (r: u128)
    requires
        n <= s@.len(),
    ensures
        r == spec_utf8_len(s@.subrange(0, n as int)),
{
    let mut acc: u128 = 0;
    let mut i: usize = 0;
    while i < n
        invariant
            i <= n <= s@.len(),
            acc == spec_utf8_len(s@.subrange(0, i as int)),
            acc <= 4 * i,
        decreases n - i,
    {
        let u = s[i] as u32;
        let w: u128 = if u < 0x80 {
            1
        } else if u < 0x800 {
            2
        } else if u < 0x10000 {
            3
        } else {
            4
        };
        proof {
            assert(s@.subrange(0, i + 1).subrange(0, i as int) =~= s@.subrange(0, i as int));
        }
        acc = acc + w;
        i = i + 1;
    }
    acc
}

/// Whether `a` sorts strictly before `b`, comparing characters in order
/// (the order of `str`, which is that of its UTF-8 bytes).
pub open spec fn spec_chars_lt(a: Seq<char>, b: Seq<char>) -> bool
    decreases a.len(),
{
    if a.len() == 0 {
        b.len() > 0
    } else if b.len() == 0 {
        false
    } else if a[0] != b[0] {
        (a[0] as u32) < (b[0] as u32)
    } else {
        spec_chars_lt(a.subrange(1, a.len() as int), b.subrange(1, b.len() as int))
    }
}

/// Whether `a` sorts strictly before `b`.
pub fn chars_lt(a: &[char], b: &[char]) -> (r: bool)
    ensures
        r == spec_chars_lt(a@, b@),
{
    let mut i: usize = 0;
    proof {
        assert(a@.subrange(0, a@.len() as int) =~= a@);
        assert(b@.subrange(0, b@.len() as int) =~= b@);
    }
    while i < a.len() && i < b.len() && a[i] == b[i]
        invariant
            i <= a@.len(),
            i <= b@.len(),
            spec_chars_lt(a@, b@) == spec_chars_lt(
                a@.subrange(i as int, a@.len() as int),
                b@.subrange(i as int, b@.len() as int),
            ),
        decreases a@.len() - i,
    {
        proof {
            let x = a@.subrange(i as int, a@.len() as int);
            let y = b@.subrange(i as int, b@.len() as int);
            assert(x.subrange(1, x.len() as int) =~= a@.subrange(i + 1, a@.len() as int));
            assert(y.subrange(1, y.len() as int) =~= b@.subrange(i + 1, b@.len() as int));
        }
        i = i + 1;
    }
    proof {
        let x = a@.subrange(i as int, a@.len() as int);
        let y = b@.subrange(i as int, b@.len() as int);
        if i < a@.len() && i < b@.len() {
            assert(x[0] == a@[i as int]);
            assert(y[0] == b@[i as int]);
        }
    }
    if i == a.len() {
        i < b.len()
    } else if i == b.len() {
        false
    } else {
        (a[i] as u32) < (b[i] as u32)
    }
}

/// The value of the digit `c` in any radix up to 36 (`char::to_digit`'s
/// reading: `0-9`, then `a-z` / `A-Z` from 10), or 36 for a non-digit.
pub open spec fn spec_digit_value(c: char) -> nat {
    let u = c as u32;
    if 48 <= u <= 57 {
        (u - 48) as nat
    } else if 97 <= u <= 122 {
        (u - 97 + 10) as nat
    } else if 65 <= u <= 90 {
        (u - 65 + 10) as nat
    } else {
        36
    }
}

/// The value of the digit string `s` in `radix`.
pub open spec fn spec_digits_value(s: Seq<char>, radix: nat) -> nat
    decreases s.len(),
{
    if s.len() == 0 {
        0
    } else {
        spec_digits_value(s.subrange(0, s.len() - 1), radix) * radix + spec_digit_value(
            s[s.len() - 1],
        )
    }
}

/// What `i64::from_str_radix(s, radix)` accepts and gives: an optional
/// `+` or `-`, then one or more digits of `radix`, whose signed value
/// fits in an `i64`.
pub open spec fn spec_from_str_radix(s: Seq<char>, radix: u32) -> Option<i64> {
    let signed = s.len() > 0 && (s[0] == '+' || s[0] == '-');
    let neg = s.len() > 0 && s[0] == '-';
    let body = if signed {
        s.subrange(1, s.len() as int)
    } else {
        s
    };
    if body.len() == 0 {
        None
    } else if exists|i: int| 0 <= i < body.len() && spec_digit_value(#[trigger] body[i]) >= radix {
        None
    } else {
        let mag = spec_digits_value(body, radix as nat) as int;
        let v = if neg {
            -mag
        } else {
            mag
        };
        if i64::MIN <= v <= i64::MAX {
            Some(v as i64)
        } else {
            None
        }
    }
}

/// The text of the error `i64::from_str_radix(s, radix)` gives where it
/// fails (its `Display`, which names the failure's kind).
pub uninterp spec fn int_parse_error_text(s: Seq<char>, radix: u32) -> Seq<char>;

/// `i64::from_str_radix`, its error rendered as text. What it accepts and
/// the value it gives are stated; the error text is named: it depends on
/// the arguments alone.
#[verifier::external_body]
pub(crate) fn i64_from_str_radix(s: &str, radix: u32) -> (r: Result<i64, String>)
    requires
        2 <= radix <= 36,
    ensures
        match r {
            Ok(v) => spec_from_str_radix(s@, radix) == Some(v),
            Err(m) => spec_from_str_radix(s@, radix) is None && m@ == int_parse_error_text(
                s@,
                radix,
            ),
        },
{
    match i64::from_str_radix(s, radix) {
        Ok(v) => Ok(v),
        Err(e) => Err(e.to_string()),
    }
}

/// Trimming leading whitespace leaves a suffix.
pub proof fn lemma_trim_start_suffix(s: Seq<char>)
    ensures
        spec_trim_start(s).len() <= s.len(),
        spec_trim_start(s) == s.subrange(s.len() - spec_trim_start(s).len(), s.len() as int),
    decreases s.len(),
{
    if s.len() > 0 && spec_is_ws(s[0]) {
        let t = s.subrange(1, s.len() as int);
        lemma_trim_start_suffix(t);
        assert(t.subrange(t.len() - spec_trim_start(t).len(), t.len() as int) =~= s.subrange(
            s.len() - spec_trim_start(t).len(),
            s.len() as int,
        ));
    } else {
        assert(s.subrange(0, s.len() as int) =~= s);
    }
}

/// The text of the error `std::str::from_utf8` gives for `bytes` that are
/// not UTF-8 (its `Display`, naming where the invalid sequence starts).
pub uninterp spec fn utf8_error_text(bytes: Seq<u8>) -> Seq<char>;

/// What `std::str::from_utf8` makes of `bytes`: their characters when
/// they are well-formed UTF-8, else its error's text.
pub open spec fn utf8_text(bytes: Seq<u8>) -> Result<Seq<char>, Seq<char>> {
    if valid_utf8(bytes) {
        Ok(decode_utf8(bytes))
    } else {
        Err(utf8_error_text(bytes))
    }
}

/// `std::str::from_utf8`, owned, its error rendered as text: it accepts
/// exactly the well-formed UTF-8 byte sequences and gives their
/// characters. The error's wording is named: it depends on the bytes
/// alone.
#[verifier::external_body]
pub(crate) fn utf8_string(bytes: &[u8]) -> (r: Result<String, String>)
    ensures
        match r {
            Ok(s) => valid_utf8(bytes@) && s@ == decode_utf8(bytes@),
            Err(m) => !valid_utf8(bytes@) && m@ == utf8_error_text(bytes@),
        },
{
    match std::str::from_utf8(bytes) {
        Ok(s) => Ok(s.to_string()),
        Err(e) => Err(e.to_string()),
    }
}

/// The text `String::from_utf8_lossy` makes of `bytes`.
pub uninterp spec fn utf8_lossy(bytes: Seq<u8>) -> Seq<char>;

/// `String::from_utf8_lossy`, owned. The result is named: it depends on
/// the bytes alone. What the conversion does to invalid sequences is left
/// unstated here.
#[verifier::external_body]
pub(crate) fn lossy_string(bytes: &[u8]) -> (s: String)
    ensures
        s@ == utf8_lossy(bytes@),
        valid_utf8(bytes@) ==> s@ == decode_utf8(bytes@),
{
    String::from_utf8_lossy(bytes).into_owned()
}

} // verus!
