//! Text helpers: UTF-16LE decoding, whitespace trimming and the building of
//! `String` values from characters.

use vstd::prelude::*;

use crate::util::{le_u16, spec_get_u16};

verus! {

/// `String::push` appends one character (std documentation).
pub assume_specification[ String::push ](s: &mut String, ch: char)
    ensures
        final(s)@ == old(s)@.push(ch),
;

/// `char::from_u32` yields the character with that code point exactly when
/// the value is a Unicode scalar value (std documentation).
pub assume_specification[ <char>::from_u32 ](i: u32) -> (r: Option<char>)
    ensures
        is_scalar_value(i as int) ==> r == Some(i as char),
        !is_scalar_value(i as int) ==> r is None,
;

/// A Unicode scalar value: a code point that is not a surrogate.
pub open spec fn is_scalar_value(i: int) -> bool {
    0 <= i <= 0x10FFFF && !(0xD800 <= i <= 0xDFFF)
}

pub open spec fn is_high_surrogate(u: u16) -> bool {
    0xD800 <= u < 0xDC00
}

pub open spec fn is_low_surrogate(u: u16) -> bool {
    0xDC00 <= u < 0xE000
}

/// Code point encoded by a surrogate pair.
pub open spec fn surrogate_pair_value(hi: u16, lo: u16) -> int {
    0x10000 + (hi - 0xD800) * 0x400 + (lo - 0xDC00)
}

/// Strict UTF-16 decoding: `None` when an unpaired surrogate occurs.
pub open spec fn utf16_decode(u: Seq<u16>) -> Option<Seq<char>>
    decreases u.len(),
{
    if u.len() == 0 {
        Some(Seq::empty())
    } else if !is_high_surrogate(u[0]) && !is_low_surrogate(u[0]) {
        match utf16_decode(u.drop_first()) {
            Some(rest) => Some(seq![u[0] as char] + rest),
            None => None,
        }
    } else if is_high_surrogate(u[0]) && u.len() >= 2 && is_low_surrogate(u[1]) {
        match utf16_decode(u.skip(2)) {
            Some(rest) => Some(seq![surrogate_pair_value(u[0], u[1]) as char] + rest),
            None => None,
        }
    } else {
        None
    }
}

/// The units before the first zero unit (all of them if there is none).
pub open spec fn until_nul(u: Seq<u16>) -> Seq<u16>
    decreases u.len(),
{
    if u.len() == 0 || u[0] == 0 {
        Seq::empty()
    } else {
        seq![u[0]] + until_nul(u.drop_first())
    }
}

/// The complete little-endian 16-bit units of `s` (an odd trailing byte is
/// ignored).
pub open spec fn le_units(s: Seq<u8>) -> Seq<u16> {
    Seq::new(s.len() / 2, |k: int| le_u16(s, 2 * k))
}

/// The string stored at `off`: UTF-16LE units up to a zero unit or the end
/// of the data. `None` when `off` is past the end or the units are not valid
/// UTF-16.
pub open spec fn spec_unicode_string(s: Seq<u8>, off: int) -> Option<Seq<char>> {
    if 0 <= off <= s.len() {
        utf16_decode(until_nul(le_units(s.skip(off))))
    } else {
        None
    }
}

/// No unit before the first zero unit is zero.
proof fn lemma_until_nul_nonzero(u: Seq<u16>)
    ensures
        forall|k: int| 0 <= k < until_nul(u).len() ==> until_nul(u)[k] != 0,
    decreases u.len(),
{
    if u.len() > 0 && u[0] != 0 {
        lemma_until_nul_nonzero(u.drop_first());
        assert forall|k: int| 0 <= k < until_nul(u).len() implies until_nul(u)[k] != 0 by {
            if k > 0 {
                assert(until_nul(u)[k] == until_nul(u.drop_first())[k - 1]);
            }
        }
    }
}

/// Decoding units none of which is zero gives no NUL character.
proof fn lemma_decode_nonzero(u: Seq<u16>)
    requires
        forall|k: int| 0 <= k < u.len() ==> u[k] != 0,
    ensures
        utf16_decode(u) matches Some(cs) ==> forall|j: int| 0 <= j < cs.len() ==> cs[j] != '\0',
    decreases u.len(),
{
    if u.len() > 0 {
        if !is_high_surrogate(u[0]) && !is_low_surrogate(u[0]) {
            lemma_decode_nonzero(u.drop_first());
            assert((u[0] as char) as u32 == u[0]);
        } else if is_high_surrogate(u[0]) && u.len() >= 2 && is_low_surrogate(u[1]) {
            lemma_decode_nonzero(u.skip(2));
            let v = surrogate_pair_value(u[0], u[1]);
            assert(0x10000 <= v <= 0x10FFFF);
            assert((v as char) as u32 == v);
        }
    }
}

/// A decoded string holds no NUL character: decoding stops at the first
/// zero unit.
pub proof fn unicode_string_has_no_nul(s: Seq<u8>, off: int)
    ensures
        spec_unicode_string(s, off) matches Some(cs) ==> forall|j: int|
            0 <= j < cs.len() ==> cs[j] != '\0',
{
    if 0 <= off <= s.len() {
        let u = until_nul(le_units(s.skip(off)));
        lemma_until_nul_nonzero(le_units(s.skip(off)));
        lemma_decode_nonzero(u);
    }
}

/// What `trim_start` leaves is empty or starts with a non-blank character.
proof fn lemma_trim_start_first(s: Seq<char>)
    ensures
        trim_start(s).len() > 0 ==> !is_white_space(trim_start(s)[0]),
    decreases s.len(),
{
    if s.len() > 0 && is_white_space(s[0]) {
        lemma_trim_start_first(s.drop_first());
    }
}

/// `trim_end` keeps a prefix, which is empty or ends with a non-blank
/// character.
proof fn lemma_trim_end_prefix(s: Seq<char>)
    ensures
        trim_end(s).len() <= s.len(),
        trim_end(s) == s.take(trim_end(s).len() as int),
        trim_end(s).len() > 0 ==> !is_white_space(trim_end(s).last()),
    decreases s.len(),
{
    if s.len() > 0 && is_white_space(s.last()) {
        lemma_trim_end_prefix(s.drop_last());
        assert(s.drop_last().take(trim_end(s).len() as int) =~= s.take(trim_end(s).len() as int));
    } else {
        assert(s.take(s.len() as int) =~= s);
    }
}

/// Trimming a trimmed string changes nothing.
pub proof fn trim_is_idempotent(s: Seq<char>)
    ensures
        trim(trim(s)) == trim(s),
{
    let x = trim(s);
    lemma_trim_start_first(s);
    lemma_trim_end_prefix(trim_start(s));
    if x.len() > 0 {
        assert(x[0] == trim_start(s)[0]);
        assert(!is_white_space(x[0]));
        assert(trim_start(x) == x);
        assert(!is_white_space(x.last()));
        assert(trim_end(x) == x);
    } else {
        assert(trim_start(x) == x);
        assert(trim_end(x) == x);
    }
}

spec fn prepend<T>(p: Seq<T>, o: Option<Seq<T>>) -> Option<Seq<T>> {
    match o {
        Some(r) => Some(p + r),
        None => None,
    }
}

/// Builds a `String` holding exactly the given characters.
pub fn string_from_chars(chars: &[char]) -> (s: String)
    ensures
        s@ == chars@,
{
    let mut s = String::new();
    let mut i: usize = 0;
    while i < chars.len()
        invariant
            i <= chars@.len(),
            s@ == chars@.take(i as int),
        decreases chars@.len() - i,
    {
        s.push(chars[i]);
        i = i + 1;
        assert(s@ =~= chars@.take(i as int));
    }
    assert(chars@.take(chars@.len() as int) =~= chars@);
    s
}

/// Strict UTF-16 decoding of `units`.
pub fn decode_utf16(units: &[u16]) -> (r: Option<Vec<char>>)
    ensures
        r matches Some(v) ==> utf16_decode(units@) == Some(v@),
        r is None ==> utf16_decode(units@) is None,
{
    let mut out: Vec<char> = Vec::new();
    let mut i: usize = 0;
    assert(units@.skip(0) =~= units@);
    while i < units.len()
        invariant
            i <= units@.len(),
            utf16_decode(units@) == prepend(out@, utf16_decode(units@.skip(i as int))),
        decreases units@.len() - i,
    {
        let ghost rest = units@.skip(i as int);
        let u = units[i];
        if u < 0xD800 || u >= 0xE000 {
            assert(rest.drop_first() =~= units@.skip(i + 1));
            let c = char::from_u32(u as u32).unwrap();
            out.push(c);
            i = i + 1;
            proof {
                let tail = utf16_decode(units@.skip(i as int));
                match tail {
                    Some(t) => {
                        assert(out@ + t =~= out@.drop_last() + (seq![u as char] + t));
                    },
                    None => {},
                }
            }
        } else if u < 0xDC00 && i + 1 < units.len() && units[i + 1] >= 0xDC00 && units[i + 1]
            < 0xE000 {
            let lo = units[i + 1];
            assert(rest.skip(2) =~= units@.skip(i + 2));
            let v: u32 = 0x10000 + ((u - 0xD800) as u32) * 0x400 + ((lo - 0xDC00) as u32);
            let c = char::from_u32(v).unwrap();
            out.push(c);
            i = i + 2;
            proof {
                let tail = utf16_decode(units@.skip(i as int));
                match tail {
                    Some(t) => {
                        assert(out@ + t =~= out@.drop_last() + (seq![v as char] + t));
                    },
                    None => {},
                }
            }
        } else {
            return None;
        }
    }
    assert(units@.skip(i as int) =~= Seq::<u16>::empty());
    assert(out@ + Seq::<char>::empty() =~= out@);
    Some(out)
}

/// The little-endian units of `data[offset..]` that precede the first zero
/// unit.
fn units_until_nul(data: &[u8], offset: usize) -> (r: Vec<u16>)
    requires
        offset <= data@.len(),
    ensures
        r@ == until_nul(le_units(data@.skip(offset as int))),
{
    let ghost all = le_units(data@.skip(offset as int));
    let mut out: Vec<u16> = Vec::new();
    let mut k: usize = 0;
    let count = (data.len() - offset) / 2;
    assert(all.skip(0) =~= all);
    while k < count
        invariant
            offset <= data@.len(),
            count == (data@.len() - offset) / 2,
            data@.len() <= usize::MAX,
            all == le_units(data@.skip(offset as int)),
            all.len() == count,
            k <= count,
            until_nul(all) == out@ + until_nul(all.skip(k as int)),
        decreases count - k,
    {
        assert(offset + 2 * k + 2 <= data@.len()) by (nonlinear_arith)
            requires
                k < count,
                count == (data@.len() - offset) / 2,
                offset <= data@.len(),
        ;
        let pos = offset + 2 * k;
        let lo = data[pos] as u16;
        let hi = data[pos + 1] as u16;
        let u: u16 = lo + hi * 0x100;
        assert(all[k as int] == u);
        assert(all.skip(k as int)[0] == u);
        if u == 0 {
            assert(until_nul(all.skip(k as int)) =~= Seq::<u16>::empty());
            assert(out@ + Seq::<u16>::empty() =~= out@);
            return out;
        }
        assert(all.skip(k as int).drop_first() =~= all.skip(k + 1));
        out.push(u);
        k = k + 1;
        assert(out@ + until_nul(all.skip(k as int)) =~= out@.drop_last() + (seq![u] + until_nul(
            all.skip(k as int),
        )));
    }
    assert(all.skip(k as int) =~= Seq::<u16>::empty());
    assert(out@ + Seq::<u16>::empty() =~= out@);
    out
}

/// Characters of the string stored as UTF-16LE at `offset`, ended by a
/// zero unit or by the end of the slice.
pub fn unicode_chars(data: &[u8], offset: usize) -> (r: Option<Vec<char>>)
    ensures
        r matches Some(v) ==> spec_unicode_string(data@, offset as int) == Some(v@),
        r is None ==> spec_unicode_string(data@, offset as int) is None,
{
    if offset > data.len() {
        return None;
    }
    let units = units_until_nul(data, offset);
    decode_utf16(units.as_slice())
}

/// Unicode `White_Space` characters (the ones `char::is_whitespace`
/// accepts).
pub open spec fn is_white_space(c: char) -> bool {
    let v = c as u32;
    (0x09 <= v <= 0x0D) || v == 0x20 || v == 0x85 || v == 0xA0 || v == 0x1680 || (0x2000 <= v
        <= 0x200A) || v == 0x2028 || v == 0x2029 || v == 0x202F || v == 0x205F || v == 0x3000
}

/// `true` for the Unicode `White_Space` characters.
pub fn white_space(c: char) -> (r: bool)
    ensures
        r == is_white_space(c),
{
    let v = c as u32;
    (0x09 <= v && v <= 0x0D) || v == 0x20 || v == 0x85 || v == 0xA0 || v == 0x1680 || (0x2000
        <= v && v <= 0x200A) || v == 0x2028 || v == 0x2029 || v == 0x202F || v == 0x205F || v
        == 0x3000
}

/// `s` without leading white space.
pub open spec fn trim_start(s: Seq<char>) -> Seq<char>
    decreases s.len(),
{
    if s.len() > 0 && is_white_space(s[0]) {
        trim_start(s.drop_first())
    } else {
        s
    }
}

/// `s` without trailing white space.
pub open spec fn trim_end(s: Seq<char>) -> Seq<char>
    decreases s.len(),
{
    if s.len() > 0 && is_white_space(s.last()) {
        trim_end(s.drop_last())
    } else {
        s
    }
}

/// `s` without leading and trailing white space (`str::trim`).
pub open spec fn trim(s: Seq<char>) -> Seq<char> {
    trim_end(trim_start(s))
}

/// The characters of `chars` without leading and trailing white space.
pub fn trimmed(chars: &[char]) -> (r: Vec<char>)
    ensures
        r@ == trim(chars@),
{
    let n = chars.len();
    let mut i: usize = 0;
    assert(chars@.skip(0) =~= chars@);
    while i < n && white_space(chars[i])
        invariant
            n == chars@.len(),
            i <= n,
            trim_start(chars@.skip(i as int)) == trim_start(chars@),
        decreases n - i,
    {
        assert(chars@.skip(i as int).drop_first() =~= chars@.skip(i + 1));
        i = i + 1;
    }
    assert(trim_start(chars@) == chars@.skip(i as int)) by {
        if i < n {
            assert(chars@.skip(i as int)[0] == chars@[i as int]);
        }
    }
    let mut j: usize = n;
    assert(chars@.subrange(i as int, n as int) =~= chars@.skip(i as int));
    while j > i && white_space(chars[j - 1])
        invariant
            n == chars@.len(),
            i <= j <= n,
            trim_end(chars@.subrange(i as int, j as int)) == trim(chars@),
        decreases j - i,
    {
        assert(chars@.subrange(i as int, j as int).drop_last() =~= chars@.subrange(
            i as int,
            j - 1,
        ));
        j = j - 1;
    }
    assert(trim_end(chars@.subrange(i as int, j as int)) == chars@.subrange(i as int, j as int))
        by {
        if j > i {
            assert(chars@.subrange(i as int, j as int).last() == chars@[j - 1]);
        }
    }
    let mut out: Vec<char> = Vec::new();
    let mut k: usize = i;
    while k < j
        invariant
            i <= k <= j <= n,
            n == chars@.len(),
            out@ == chars@.subrange(i as int, k as int),
        decreases j - k,
    {
        out.push(chars[k]);
        k = k + 1;
        assert(out@ =~= chars@.subrange(i as int, k as int));
    }
    out
}

/// `true` when `s` starts with `prefix`.
pub open spec fn starts_with(s: Seq<char>, prefix: Seq<char>) -> bool {
    prefix.len() <= s.len() && s.subrange(0, prefix.len() as int) == prefix
}

/// `true` when `chars` starts with `prefix`.
pub fn has_prefix(chars: &[char], prefix: &[char]) -> (r: bool)
    ensures
        r == starts_with(chars@, prefix@),
{
    if prefix.len() > chars.len() {
        return false;
    }
    let mut i: usize = 0;
    while i < prefix.len()
        invariant
            prefix@.len() <= chars@.len(),
            i <= prefix@.len(),
            forall|k: int| 0 <= k < i ==> chars@[k] == prefix@[k],
        decreases prefix@.len() - i,
    {
        if chars[i] != prefix[i] {
            assert(chars@.subrange(0, prefix@.len() as int)[i as int] != prefix@[i as int]);
            return false;
        }
        i = i + 1;
    }
    assert(chars@.subrange(0, prefix@.len() as int) =~= prefix@);
    true
}

/// Appends the given characters to `s`.
pub fn push_chars(s: &mut String, chars: &[char])
    ensures
        final(s)@ == old(s)@ + chars@,
{
    let ghost head = s@;
    let mut i: usize = 0;
    while i < chars.len()
        invariant
            i <= chars@.len(),
            s@ == head + chars@.take(i as int),
        decreases chars@.len() - i,
    {
        s.push(chars[i]);
        i = i + 1;
        assert(s@ =~= head + chars@.take(i as int));
    }
    assert(chars@.take(chars@.len() as int) =~= chars@);
}

/// The character of a decimal digit.
pub open spec fn digit_char(d: int) -> char {
    (48 + d) as char
}

/// Decimal digits of `n`, most significant first, without leading zeros.
pub open spec fn decimal(n: nat) -> Seq<char>
    decreases n,
{
    if n < 10 {
        seq![digit_char(n as int)]
    } else {
        decimal(n / 10).push(digit_char((n % 10) as int))
    }
}

/// `s` left-padded with `'0'` up to `width` characters.
pub open spec fn zero_pad(s: Seq<char>, width: nat) -> Seq<char> {
    if s.len() >= width {
        s
    } else {
        Seq::new((width - s.len()) as nat, |i: int| '0') + s
    }
}

/// Decimal rendering of `v` in at least `width` characters, zero-padded
/// after the sign (the `{:0width}` format of an integer).
pub open spec fn padded_decimal(v: int, width: nat) -> Seq<char> {
    if v < 0 {
        seq!['-'] + zero_pad(decimal((-v) as nat), (width - 1) as nat)
    } else {
        zero_pad(decimal(v as nat), width)
    }
}

/// Decimal digits of `n`.
pub fn decimal_digits(n: u64) -> (r: Vec<char>)
    ensures
        r@ == decimal(n as nat),
    decreases n,
{
    let c = ((n % 10) as u8 + 48) as char;
    if n < 10 {
        let mut v = Vec::new();
        v.push(c);
        assert(v@ =~= seq![digit_char(n as int)]);
        v
    } else {
        let mut v = decimal_digits(n / 10);
        v.push(c);
        v
    }
}

/// Appends `v` rendered in decimal, zero-padded to `width` characters.
pub fn push_padded(out: &mut Vec<char>, v: i64, width: usize)
    requires
        v > i64::MIN,
        width >= 1,
    ensures
        final(out)@ == old(out)@ + padded_decimal(v as int, width as nat),
{
    let ghost start = out@;
    let magnitude: u64 = if v < 0 {
        (-v) as u64
    } else {
        v as u64
    };
    let digits = decimal_digits(magnitude);
    let mut w = width;
    if v < 0 {
        out.push('-');
        w = width - 1;
    }
    let ghost before_pad = out@;
    assert(before_pad == start + (if v < 0 { seq!['-'] } else { Seq::<char>::empty() }));
    let mut k: usize = digits.len();
    while k < w
        invariant
            digits.len() <= k,
            digits.len() < w ==> k <= w,
            digits.len() >= w ==> k == digits.len(),
            out@ == before_pad + Seq::new((k - digits@.len()) as nat, |i: int| '0'),
        decreases w - k,
    {
        out.push('0');
        k = k + 1;
        assert(out@ =~= before_pad + Seq::new((k - digits@.len()) as nat, |i: int| '0'));
    }
    let ghost padded = out@;
    proof {
        let z = Seq::new((k - digits@.len()) as nat, |i: int| '0');
        if digits@.len() >= w {
            assert(z =~= Seq::<char>::empty());
            assert(zero_pad(digits@, w as nat) == digits@);
        } else {
            assert(k == w);
            assert(zero_pad(digits@, w as nat) == z + digits@);
        }
        assert(padded + digits@ =~= start + padded_decimal(v as int, width as nat));
    }
    let mut i: usize = 0;
    while i < digits.len()
        invariant
            i <= digits@.len(),
            out@ == padded + digits@.take(i as int),
            padded + digits@ == start + padded_decimal(v as int, width as nat),
        decreases digits@.len() - i,
    {
        out.push(digits[i]);
        i = i + 1;
        assert(out@ =~= padded + digits@.take(i as int));
    }
    assert(digits@.take(digits@.len() as int) =~= digits@);
}

/// Lowercase hexadecimal digit.
pub open spec fn hex_char(d: int) -> char {
    if d < 10 {
        (48 + d) as char
    } else {
        (87 + d) as char
    }
}

/// The `n` low hexadecimal digits of `v`, most significant first.
pub open spec fn hex_digits(v: nat, n: nat) -> Seq<char>
    decreases n,
{
    if n == 0 {
        Seq::empty()
    } else {
        hex_digits(v / 16, (n - 1) as nat).push(hex_char((v % 16) as int))
    }
}

/// `0x` followed by the eight hexadecimal digits of `v` (the `{:#010x}`
/// format of a `u32`).
pub open spec fn hex_u32(v: u32) -> Seq<char> {
    seq!['0', 'x'] + hex_digits(v as nat, 8)
}

fn hex_fixed(v: u32, n: usize) -> (r: Vec<char>)
    ensures
        r@ == hex_digits(v as nat, n as nat),
    decreases n,
{
    if n == 0 {
        return Vec::new();
    }
    let mut out = hex_fixed(v / 16, n - 1);
    let d = (v % 16) as u8;
    let c = if d < 10 {
        (48 + d) as char
    } else {
        (87 + d) as char
    };
    out.push(c);
    out
}

/// Appends `v` as `0x` and eight lowercase hexadecimal digits.
pub fn push_hex_u32(s: &mut String, v: u32)
    ensures
        final(s)@ == old(s)@ + hex_u32(v),
{
    let mut chars: Vec<char> = Vec::new();
    chars.push('0');
    chars.push('x');
    let digits = hex_fixed(v, 8);
    let mut i: usize = 0;
    while i < digits.len()
        invariant
            i <= digits@.len(),
            chars@ == seq!['0', 'x'] + digits@.take(i as int),
        decreases digits@.len() - i,
    {
        chars.push(digits[i]);
        i = i + 1;
        assert(chars@ =~= seq!['0', 'x'] + digits@.take(i as int));
    }
    assert(digits@.take(digits@.len() as int) =~= digits@);
    push_chars(s, chars.as_slice());
}

/// `String::push_str` appends the characters of `string` (std
/// documentation).
pub assume_specification[ String::push_str ](s: &mut String, string: &str)
    ensures
        final(s)@ == old(s)@ + string@,
;

/// `true` exactly when the two strings hold the same characters.
pub fn str_equal(a: &str, b: &str) -> (r: bool)
    ensures
        r == (a@ == b@),
{
    let x = chars_of(a);
    let y = chars_of(b);
    if x.len() != y.len() {
        return false;
    }
    let mut i: usize = 0;
    while i < x.len()
        invariant
            x@ == a@,
            y@ == b@,
            x@.len() == y@.len(),
            i <= x@.len(),
            forall|k: int| 0 <= k < i ==> x@[k] == y@[k],
        decreases x@.len() - i,
    {
        if x[i] != y[i] {
            return false;
        }
        i = i + 1;
    }
    assert(x@ =~= y@);
    true
}

/// Latin-1 reading of bytes: each byte is the character with that code.
pub open spec fn latin1(b: Seq<u8>) -> Seq<char> {
    Seq::new(b.len(), |i: int| b[i] as char)
}

/// Characters of `bytes[from..to]`, one per byte.
pub fn latin1_chars(bytes: &[u8], from: usize, to: usize) -> (r: Vec<char>)
    requires
        from <= to <= bytes@.len(),
    ensures
        r@ == latin1(bytes@.subrange(from as int, to as int)),
{
    let mut out: Vec<char> = Vec::new();
    let mut i: usize = from;
    while i < to
        invariant
            from <= i <= to <= bytes@.len(),
            out@ == latin1(bytes@.subrange(from as int, i as int)),
        decreases to - i,
    {
        out.push(bytes[i] as char);
        i = i + 1;
        assert(out@ =~= latin1(bytes@.subrange(from as int, i as int)));
    }
    out
}

/// The characters of `s`.
pub fn chars_of(s: &str) -> (r: Vec<char>)
    ensures
        r@ == s@,
{
    let mut out: Vec<char> = Vec::new();
    for c in it: s.chars()
        invariant
            out@ == it.seq().take(it.index() as int),
    {
        out.push(c);
    }
    out
}

} // verus!
