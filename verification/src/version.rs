//! Identification of the file: the `CompObj` stream (application name and
//! file format), the readable name of unsupported formats, the application
//! version, and the password protection recorded in the root `Props14`.

use vstd::prelude::*;

use crate::blocks::Props;
use crate::error::{is_corrupt, MppError};
use crate::text::{latin1, latin1_chars, str_equal, string_from_chars};
use crate::util::{get_i32, spec_get_i32};

verus! {

/// Root `Props14` key: password flags (0x01 read password, 0x02 write
/// password).
pub const PASSWORD_FLAG: i32 = 893386752;

/// Root `Props14` key: hash of the protection password.
pub const PROTECTION_PASSWORD_HASH: i32 = 893386756;

/// Root `Props14` key: code of the single-byte XOR obfuscation.
pub const ENCRYPTION_CODE: i32 = 893386759;

/// A length-prefixed ANSI string at `pos`: `len: i32` (the length counts a
/// terminating nul) then the bytes. Yields the text and the position after
/// it; `None` when the length is below 1 or the text does not fit.
pub open spec fn comp_obj_string(buf: Seq<u8>, pos: int) -> Option<(Seq<char>, int)> {
    match spec_get_i32(buf, pos) {
        None => None,
        Some(len) => if len < 1 || pos + 4 + len - 1 > buf.len() {
            None
        } else {
            Some((latin1(buf.subrange(pos + 4, pos + 4 + len - 1)), pos + 4 + len))
        },
    }
}

/// `(application name, file format)` recorded in a `CompObj` stream: the
/// strings start at byte 28; "Microsoft Project 4.0" carries no format and
/// means `MSProject.MPP4`; a missing format is empty. `None` when the
/// application name cannot be read.
pub open spec fn spec_comp_obj(buf: Seq<u8>) -> Option<(Seq<char>, Seq<char>)> {
    match comp_obj_string(buf, 28) {
        None => None,
        Some((name, next)) => Some(
            (
                name,
                if name == "Microsoft Project 4.0"@ {
                    "MSProject.MPP4"@
                } else {
                    match comp_obj_string(buf, next) {
                        Some((format, _)) => format,
                        None => Seq::empty(),
                    }
                },
            ),
        ),
    }
}

fn comp_obj_string_at(buf: &[u8], pos: usize) -> (r: Option<(Vec<char>, usize)>)
    ensures
        match r {
            Some((text, end)) => comp_obj_string(buf@, pos as int) == Some((text@, end + 1))
                && end <= buf@.len(),
            None => comp_obj_string(buf@, pos as int) is None,
        },
{
    let len = match get_i32(buf, pos) {
        Some(l) => l,
        None => return None,
    };
    if len < 1 {
        return None;
    }
    let n = len as usize;
    if n - 1 > buf.len() - (pos + 4) {
        return None;
    }
    let text = latin1_chars(buf, pos + 4, pos + 4 + (n - 1));
    Some((text, pos + 4 + (n - 1)))
}

/// Reads the application name and file format of a `CompObj` stream.
pub fn parse_comp_obj(buf: &[u8]) -> (r: Result<(String, String), MppError>)
    ensures
        match r {
            Ok((name, format)) => spec_comp_obj(buf@) == Some((name@, format@)),
            Err(e) => spec_comp_obj(buf@) is None && is_corrupt(
                e,
                "CompObj"@,
                "no se pudo leer applicationName"@,
            ),
        },
{
    let (name_chars, end) = match comp_obj_string_at(buf, 28) {
        Some(v) => v,
        None => {
            return Err(
                MppError::corrupt("CompObj", "no se pudo leer applicationName".to_owned()),
            );
        },
    };
    let name = string_from_chars(name_chars.as_slice());
    let format = if str_equal(name.as_str(), "Microsoft Project 4.0") {
        "MSProject.MPP4".to_owned()
    } else {
        let second = if end < buf.len() {
            comp_obj_string_at(buf, end + 1)
        } else {
            None
        };
        match second {
            Some((chars, _)) => string_from_chars(chars.as_slice()),
            None => String::new(),
        }
    };
    Ok((name, format))
}

/// Readable name of a file format other than MPP14.
pub open spec fn version_label(format: Seq<char>) -> Seq<char> {
    if format == "MSProject.MPP12"@ {
        "MPP12 (Project 2007)"@
    } else if format == "MSProject.MPP9"@ {
        "MPP9 (Project 2000–2003)"@
    } else if format == "MSProject.MPP8"@ {
        "MPP8 (Project 98)"@
    } else if format == "MSProject.MPP4"@ {
        "MPP4 (Project 4.0)"@
    } else if format.len() == 0 {
        "desconocida (sin CompObj legible)"@
    } else {
        format
    }
}

/// Readable name of the file format `format`.
pub fn describe_format(format: &str) -> (r: String)
    ensures
        r@ == version_label(format@),
{
    if str_equal(format, "MSProject.MPP12") {
        "MPP12 (Project 2007)".to_owned()
    } else if str_equal(format, "MSProject.MPP9") {
        "MPP9 (Project 2000–2003)".to_owned()
    } else if str_equal(format, "MSProject.MPP8") {
        "MPP8 (Project 98)".to_owned()
    } else if str_equal(format, "MSProject.MPP4") {
        "MPP4 (Project 4.0)".to_owned()
    } else if format.is_empty() {
        "desconocida (sin CompObj legible)".to_owned()
    } else {
        format.to_owned()
    }
}

pub open spec fn is_ascii_digit(c: char) -> bool {
    '0' <= c <= '9'
}

/// `s` without its leading characters that are not ASCII digits.
pub open spec fn skip_non_digits(s: Seq<char>) -> Seq<char>
    decreases s.len(),
{
    if s.len() == 0 || is_ascii_digit(s[0]) {
        s
    } else {
        skip_non_digits(s.drop_first())
    }
}

/// The leading ASCII digits of `s`.
pub open spec fn digit_prefix(s: Seq<char>) -> Seq<char>
    decreases s.len(),
{
    if s.len() > 0 && is_ascii_digit(s[0]) {
        seq![s[0]] + digit_prefix(s.drop_first())
    } else {
        Seq::empty()
    }
}

/// Decimal value of a string of ASCII digits.
pub open spec fn digits_value(s: Seq<char>) -> int
    decreases s.len(),
{
    if s.len() == 0 {
        0
    } else {
        digits_value(s.drop_last()) * 10 + (s.last() as int - 48)
    }
}

/// Application version named in the application name ("Microsoft Project
/// 14.0" names 14): the first run of ASCII digits, when it fits in a `u32`;
/// 14 otherwise.
pub open spec fn spec_application_version(name: Seq<char>) -> u32 {
    let run = digit_prefix(skip_non_digits(name));
    if run.len() > 0 && digits_value(run) <= u32::MAX {
        digits_value(run) as u32
    } else {
        14
    }
}

proof fn lemma_digits_value_push(s: Seq<char>, c: char)
    ensures
        digits_value(s.push(c)) == digits_value(s) * 10 + (c as int - 48),
{
    assert(s.push(c).drop_last() =~= s);
}

proof fn lemma_digits_value_nonneg(s: Seq<char>)
    requires
        forall|i: int| 0 <= i < s.len() ==> is_ascii_digit(s[i]),
    ensures
        digits_value(s) >= 0,
    decreases s.len(),
{
    if s.len() > 0 {
        lemma_digits_value_nonneg(s.drop_last());
    }
}

/// Application version named in `name`.
pub fn application_version(name: &[char]) -> (r: u32)
    ensures
        r == spec_application_version(name@),
{
    let n = name.len();
    let mut i: usize = 0;
    assert(name@.skip(0) =~= name@);
    while i < n && !(name[i] >= '0' && name[i] <= '9')
        invariant
            n == name@.len(),
            i <= n,
            skip_non_digits(name@.skip(i as int)) == skip_non_digits(name@),
        decreases n - i,
    {
        assert(name@.skip(i as int).drop_first() =~= name@.skip(i + 1));
        i = i + 1;
    }
    let ghost rest = name@.skip(i as int);
    assert(skip_non_digits(rest) == rest) by {
        if i < n {
            assert(rest[0] == name@[i as int]);
        }
    }
    let start = i;
    let mut value: u64 = 0;
    let mut overflow = false;
    while i < n && name[i] >= '0' && name[i] <= '9'
        invariant
            n == name@.len(),
            start <= i <= n,
            rest == name@.skip(start as int),
            digit_prefix(rest) == name@.subrange(start as int, i as int) + digit_prefix(
                name@.skip(i as int),
            ),
            forall|k: int| start <= k < i ==> is_ascii_digit(name@[k]),
            !overflow ==> value as int == digits_value(name@.subrange(start as int, i as int)),
            !overflow ==> value <= u32::MAX,
            overflow ==> digits_value(name@.subrange(start as int, i as int)) > u32::MAX,
        decreases n - i,
    {
        let d = (name[i] as u32 - 48) as u64;
        let ghost before = name@.subrange(start as int, i as int);
        proof {
            lemma_digits_value_push(before, name@[i as int]);
            assert(name@.subrange(start as int, i + 1) =~= before.push(name@[i as int]));
            assert(name@.skip(i as int).drop_first() =~= name@.skip(i + 1));
            assert(name@.skip(i as int)[0] == name@[i as int]);
            assert(digit_prefix(name@.skip(i as int)) == seq![name@[i as int]] + digit_prefix(
                name@.skip(i + 1),
            ));
            assert(name@.subrange(start as int, i + 1) + digit_prefix(name@.skip(i + 1))
                =~= before + digit_prefix(name@.skip(i as int)));
            lemma_digits_value_nonneg(before);
        }
        if !overflow {
            let next = value * 10 + d;
            if next > 0xFFFF_FFFF {
                overflow = true;
            } else {
                value = next;
            }
        }
        i = i + 1;
    }
    proof {
        if i < n {
            assert(name@.skip(i as int)[0] == name@[i as int]);
        }
        assert(digit_prefix(name@.skip(i as int)) =~= Seq::<char>::empty());
        assert(name@.subrange(start as int, i as int) + Seq::<char>::empty() =~= name@.subrange(
            start as int,
            i as int,
        ));
    }
    if i == start || overflow {
        14
    } else {
        value as u32
    }
}

/// First byte of the entry `key` (0 when absent or empty).
pub open spec fn first_byte(p: Map<i32, Seq<u8>>, key: i32) -> u8 {
    if p.contains_key(key) && p[key].len() > 0 {
        p[key][0]
    } else {
        0
    }
}

/// XOR mask of the obfuscation recorded in a root `Props14` dictionary;
/// `None` when the file has a read password and a password hash (it cannot
/// be read). With any flag set, a non-zero encryption code `c` gives the
/// mask `0xFF - c`.
pub open spec fn spec_protection(p: Map<i32, Seq<u8>>) -> Option<u8> {
    let flag = first_byte(p, PASSWORD_FLAG);
    if flag % 2 == 1 && p.contains_key(PROTECTION_PASSWORD_HASH) {
        None
    } else if flag != 0 {
        let code = first_byte(p, ENCRYPTION_CODE);
        Some(
            if code == 0 {
                0
            } else {
                (0xFF - code) as u8
            },
        )
    } else {
        Some(0)
    }
}

fn first_byte_of(props: &Props, key: i32) -> (r: u8)
    ensures
        r == first_byte(props@, key),
{
    match props.byte_array(key) {
        Some(b) => if b.len() > 0 {
            b[0]
        } else {
            0
        },
        None => 0,
    }
}

/// Obfuscation mask of a file whose root `Props14` is `props`, or
/// `PasswordProtected`.
pub fn protection_mask(props: &Props) -> (r: Result<u8, MppError>)
    ensures
        match r {
            Ok(mask) => spec_protection(props@) == Some(mask),
            Err(e) => spec_protection(props@) is None && e is PasswordProtected,
        },
{
    let flag = first_byte_of(props, PASSWORD_FLAG);
    let read_password = flag & 0x1 != 0;
    assert(read_password == (flag % 2 == 1)) by (bit_vector)
        requires
            read_password == (flag & 0x1 != 0),
    ;
    let encryption_xml = props.byte_array(PROTECTION_PASSWORD_HASH).is_some();
    if read_password && encryption_xml {
        return Err(MppError::PasswordProtected);
    }
    if flag != 0 {
        let code = first_byte_of(props, ENCRYPTION_CODE);
        Ok(
            if code == 0 {
                0
            } else {
                0xFF - code
            },
        )
    } else {
        Ok(0)
    }
}

} // verus!
