//! Entity escaping and unescaping.
//!
//! Text and attribute values are stored unescaped in the tree; on the way
//! in, `&lt;`-style entities and `&#...;` character references are
//! resolved, and on the way out the five special characters are written
//! back as entities.

use crate::error::{EscapeError, ParseCharRefError};
use crate::utils::{chars_to_string, str_to_chars};
use vstd::prelude::*;

verus! {

/// The value of `c` as a digit in the given radix, if it is one.
pub open spec fn digit_val(c: char, radix: u32) -> Option<u32> {
    let v = c as u32;
    if 48 <= v <= 57 && v - 48 < radix {
        Some((v - 48) as u32)
    } else if radix == 16 && 97 <= v <= 102 {
        Some((v - 87) as u32)
    } else if radix == 16 && 65 <= v <= 70 {
        Some((v - 55) as u32)
    } else {
        None
    }
}

fn digit_val_exec(c: char, radix: u32) -> (r: Option<u32>)
    ensures
        r == digit_val(c, radix),
{
    let v = c as u32;
    if 48 <= v && v <= 57 && v - 48 < radix {
        Some(v - 48)
    } else if radix == 16 && 97 <= v && v <= 102 {
        Some(v - 87)
    } else if radix == 16 && 65 <= v && v <= 70 {
        Some(v - 55)
    } else {
        None
    }
}

/// The value of the digits of `s` from position `i` on, on top of the
/// value `acc` of the digits before, or `None` if a non-digit occurs.
pub open spec fn parse_digits_from(s: Seq<char>, i: int, acc: nat, radix: u32) -> Option<nat>
    decreases s.len() - i,
{
    if i >= s.len() {
        Some(acc)
    } else {
        match digit_val(s[i], radix) {
            Some(d) => parse_digits_from(s, i + 1, (acc * radix + d) as nat, radix),
            None => None,
        }
    }
}

proof fn lemma_parse_digits_lower(s: Seq<char>, i: int, acc: nat, radix: u32)
    requires
        radix >= 1,
    ensures
        (parse_digits_from(s, i, acc, radix) matches Some(v) ==> v >= acc),
    decreases s.len() - i,
{
    if i < s.len() {
        match digit_val(s[i], radix) {
            Some(d) => {
                assert(acc * radix >= acc * 1) by (nonlinear_arith)
                    requires
                        radix >= 1,
                        acc >= 0,
                ;
                lemma_parse_digits_lower(s, i + 1, (acc * radix + d) as nat, radix);
            },
            None => {},
        }
    }
}

/// The numeric value of a digit string, if every character is a digit of
/// the radix, the string is non-empty, and the value fits in 32 bits.
pub open spec fn parse_u32_spec(s: Seq<char>, radix: u32) -> Option<u32> {
    if s.len() == 0 {
        None
    } else {
        match parse_digits_from(s, 0, 0, radix) {
            Some(v) => if v <= u32::MAX {
                Some(v as u32)
            } else {
                None
            },
            None => None,
        }
    }
}

fn parse_u32_chars(v: &Vec<char>, start: usize, end: usize, radix: u32) -> (r: Option<u32>)
    requires
        start <= end <= v@.len(),
        radix == 10 || radix == 16,
    ensures
        r == parse_u32_spec(v@.subrange(start as int, end as int), radix),
{
    let ghost s = v@.subrange(start as int, end as int);
    if start == end {
        return None;
    }
    let mut acc: u32 = 0;
    let mut idx: usize = start;
    while idx < end
        invariant
            start <= idx <= end <= v@.len(),
            radix == 10 || radix == 16,
            s == v@.subrange(start as int, end as int),
            parse_digits_from(s, 0, 0, radix) == parse_digits_from(
                s,
                idx - start,
                acc as nat,
                radix,
            ),
        decreases end - idx,
    {
        proof {
            assert(s[idx - start] == v@[idx as int]);
        }
        match digit_val_exec(v[idx], radix) {
            Some(d) => {
                let wide: u64 = if radix == 16 {
                    acc as u64 * 16 + d as u64
                } else {
                    acc as u64 * 10 + d as u64
                };
                proof {
                    assert(acc as nat * radix as nat + d as nat == wide as nat);
                }
                if wide > u32::MAX as u64 {
                    proof {
                        lemma_parse_digits_lower(s, idx - start + 1, wide as nat, radix);
                    }
                    return None;
                }
                acc = wide as u32;
            },
            None => {
                return None;
            },
        }
        idx += 1;
    }
    Some(acc)
}

/// True when `v` is a Unicode scalar value: at most `0x10FFFF` and not a
/// surrogate.
pub open spec fn is_scalar_value(v: u32) -> bool {
    v <= 0x10FFFF && !(0xD800 <= v <= 0xDFFF)
}

/// Relies on `char::from_u32`: it returns `Some` exactly on Unicode
/// scalar values, and the returned character has the given value.
#[verifier::external_body]
fn char_from_u32(v: u32) -> (r: Option<char>)
    ensures
        (r matches Some(c) ==> c as u32 == v),
        r is Some <==> is_scalar_value(v),
{
    char::from_u32(v)
}

/// What a `&#...;` character reference (the part after `#`) stands for:
/// the scalar value of the referenced character, or why it is rejected.
pub open spec fn parse_number_spec(s: Seq<char>) -> Result<u32, ParseCharRefError> {
    let hex = s.len() >= 1 && s[0] == 'x';
    let digits = if hex {
        s.skip(1)
    } else {
        s
    };
    let radix: u32 = if hex {
        16
    } else {
        10
    };
    if digits.len() >= 1 && (digits[0] == '+' || digits[0] == '-') {
        Err(ParseCharRefError::UnexpectedSign)
    } else {
        match parse_u32_spec(digits, radix) {
            None => Err(ParseCharRefError::InvalidNumber),
            Some(code) => if code == 0 {
                Err(ParseCharRefError::IllegalCharacter(code))
            } else if !is_scalar_value(code) {
                Err(ParseCharRefError::InvalidCodepoint(code))
            } else {
                Ok(code)
            },
        }
    }
}

fn parse_number_chars(v: &Vec<char>, start: usize, end: usize) -> (r: Result<
    char,
    ParseCharRefError,
>)
    requires
        start <= end <= v@.len(),
    ensures
        (parse_number_spec(v@.subrange(start as int, end as int)) matches Ok(code) ==> (r matches
            Ok(c) && c as u32 == code)),
        (parse_number_spec(v@.subrange(start as int, end as int)) matches Err(e) ==> (r matches
            Err(e2) && e2 == e)),
{
    let ghost s = v@.subrange(start as int, end as int);
    let hex = start < end && v[start] == 'x';
    let dstart = if hex {
        start + 1
    } else {
        start
    };
    let radix: u32 = if hex {
        16
    } else {
        10
    };
    proof {
        if hex {
            assert(s.skip(1) =~= v@.subrange(dstart as int, end as int));
        }
    }
    if dstart < end && (v[dstart] == '+' || v[dstart] == '-') {
        return Err(ParseCharRefError::UnexpectedSign);
    }
    match parse_u32_chars(v, dstart, end, radix) {
        None => Err(ParseCharRefError::InvalidNumber),
        Some(code) => {
            if code == 0 {
                Err(ParseCharRefError::IllegalCharacter(code))
            } else {
                match char_from_u32(code) {
                    Some(c) => Ok(c),
                    None => Err(ParseCharRefError::InvalidCodepoint(code)),
                }
            }
        },
    }
}

/// Parses the content of a `&#...;` character reference (everything after
/// the `#`): decimal digits, or `x` followed by hexadecimal digits.
pub fn parse_number(num: &str) -> (r: Result<char, ParseCharRefError>)
    ensures
        (parse_number_spec(num@) matches Ok(code) ==> (r matches Ok(c) && c as u32 == code)),
        (parse_number_spec(num@) matches Err(e) ==> (r matches Err(e2) && e2 == e)),
{
    let chars = str_to_chars(num);
    let n = chars.len();
    proof {
        assert(chars@.subrange(0, n as int) =~= num@);
    }
    parse_number_chars(&chars, 0, n)
}

/// The predefined XML entities and the characters they stand for.
pub open spec fn predefined_entity(name: Seq<char>) -> Option<char> {
    if name == seq!['l', 't'] {
        Some('<')
    } else if name == seq!['g', 't'] {
        Some('>')
    } else if name == seq!['a', 'm', 'p'] {
        Some('&')
    } else if name == seq!['a', 'p', 'o', 's'] {
        Some('\'')
    } else if name == seq!['q', 'u', 'o', 't'] {
        Some('"')
    } else {
        None
    }
}

/// Resolves one of the five predefined XML entity names.
fn resolve_predefined_chars(v: &Vec<char>, start: usize, end: usize) -> (r: Option<char>)
    requires
        start <= end <= v@.len(),
    ensures
        r == predefined_entity(v@.subrange(start as int, end as int)),
{
    let ghost s = v@.subrange(start as int, end as int);
    let n = end - start;
    let r = if n == 2 && v[start] == 'l' && v[start + 1] == 't' {
        proof {
            assert(s =~= seq!['l', 't']);
        }
        Some('<')
    } else if n == 2 && v[start] == 'g' && v[start + 1] == 't' {
        proof {
            assert(s =~= seq!['g', 't']);
        }
        Some('>')
    } else if n == 3 && v[start] == 'a' && v[start + 1] == 'm' && v[start + 2] == 'p' {
        proof {
            assert(s =~= seq!['a', 'm', 'p']);
        }
        Some('&')
    } else if n == 4 && v[start] == 'a' && v[start + 1] == 'p' && v[start + 2] == 'o' && v[start
        + 3] == 's' {
        proof {
            assert(s =~= seq!['a', 'p', 'o', 's']);
        }
        Some('\'')
    } else if n == 4 && v[start] == 'q' && v[start + 1] == 'u' && v[start + 2] == 'o' && v[start
        + 3] == 't' {
        proof {
            assert(s =~= seq!['q', 'u', 'o', 't']);
        }
        Some('"')
    } else {
        proof {
            assert(s.len() == n);
            if s == seq!['l', 't'] {
                assert(s[0] == 'l' && s[1] == 't' && s.len() == 2);
            }
            if s == seq!['g', 't'] {
                assert(s[0] == 'g' && s[1] == 't' && s.len() == 2);
            }
            if s == seq!['a', 'm', 'p'] {
                assert(s[0] == 'a' && s[1] == 'm' && s[2] == 'p' && s.len() == 3);
            }
            if s == seq!['a', 'p', 'o', 's'] {
                assert(s[0] == 'a' && s[1] == 'p' && s[2] == 'o' && s[3] == 's' && s.len() == 4);
            }
            if s == seq!['q', 'u', 'o', 't'] {
                assert(s[0] == 'q' && s[1] == 'u' && s[2] == 'o' && s[3] == 't' && s.len() == 4);
            }
        }
        None
    };
    r
}

/// What one entity body (the text between `&` and `;`) is replaced by.
/// In lenient mode an unknown entity is kept verbatim, `&` and `;`
/// included; otherwise it is an error.
pub open spec fn resolve_entity_spec(body: Seq<char>, lenient: bool) -> Result<
    Seq<char>,
    EscapeError,
> {
    if body.len() >= 1 && body[0] == '#' {
        match parse_number_spec(body.skip(1)) {
            Ok(code) => Ok(seq![code as char]),
            Err(e) => Err(EscapeError::InvalidCharRef(e)),
        }
    } else {
        match predefined_entity(body) {
            Some(c) => Ok(seq![c]),
            None => if lenient {
                Ok(seq!['&'] + body + seq![';'])
            } else {
                Err(EscapeError::UnrecognizedEntity)
            },
        }
    }
}

/// The least position at or after `from` holding `&` or `;`.
pub open spec fn find_special(s: Seq<char>, from: int) -> Option<int>
    decreases s.len() - from,
{
    if from >= s.len() {
        None
    } else if s[from] == '&' || s[from] == ';' {
        Some(from)
    } else {
        find_special(s, from + 1)
    }
}

proof fn lemma_find_special_bounds(s: Seq<char>, from: int)
    ensures
        (find_special(s, from) matches Some(j) ==> from <= j < s.len()),
    decreases s.len() - from,
{
    if from < s.len() && !(s[from] == '&' || s[from] == ';') {
        lemma_find_special_bounds(s, from + 1);
    }
}

proof fn lemma_find_special_found(s: Seq<char>, from: int, j: int)
    requires
        0 <= from <= j < s.len(),
        forall|k: int| from <= k < j ==> s[k] != '&' && s[k] != ';',
        s[j] == '&' || s[j] == ';',
    ensures
        find_special(s, from) == Some(j),
    decreases j - from,
{
    if from < j {
        lemma_find_special_found(s, from + 1, j);
    }
}

proof fn lemma_find_special_none(s: Seq<char>, from: int)
    requires
        0 <= from,
        forall|k: int| from <= k < s.len() ==> s[k] != '&' && s[k] != ';',
    ensures
        find_special(s, from) is None,
    decreases s.len() - from,
{
    if from < s.len() {
        lemma_find_special_none(s, from + 1);
    }
}

/// The unescaped form of `s` from position `i` on: literal characters are
/// kept, and each `&...;` span is replaced by what it stands for.  A `&`
/// that is not closed by `;` before the next `&` or the end of input is
/// an unterminated entity.
pub open spec fn unescape_from(s: Seq<char>, i: int, lenient: bool) -> Result<
    Seq<char>,
    EscapeError,
>
    decreases s.len() - i,
    via unescape_from_decreases
{
    if i >= s.len() {
        Ok(Seq::<char>::empty())
    } else if s[i] != '&' {
        match unescape_from(s, i + 1, lenient) {
            Ok(rest) => Ok(seq![s[i]] + rest),
            Err(e) => Err(e),
        }
    } else {
        match find_special(s, i + 1) {
            None => Err(EscapeError::UnterminatedEntity),
            Some(j) => if s[j] == '&' {
                Err(EscapeError::UnterminatedEntity)
            } else {
                match resolve_entity_spec(s.subrange(i + 1, j), lenient) {
                    Ok(rep) => match unescape_from(s, j + 1, lenient) {
                        Ok(rest) => Ok(rep + rest),
                        Err(e) => Err(e),
                    },
                    Err(e) => Err(e),
                }
            },
        }
    }
}

#[via_fn]
proof fn unescape_from_decreases(s: Seq<char>, i: int, lenient: bool) {
    if i < s.len() && s[i] == '&' {
        lemma_find_special_bounds(s, i + 1);
    }
}

/// The fully unescaped form of `s`, or the first error.
pub open spec fn unescape_spec(s: Seq<char>, lenient: bool) -> Result<Seq<char>, EscapeError> {
    unescape_from(s, 0, lenient)
}

fn unescape_chars(v: &Vec<char>, lenient: bool) -> (r: Result<Vec<char>, EscapeError>)
    ensures
        (unescape_spec(v@, lenient) matches Ok(s) ==> (r matches Ok(out) && out@ == s)),
        (unescape_spec(v@, lenient) matches Err(e) ==> (r matches Err(e2) && e2 == e)),
{
    let n = v.len();
    let mut out: Vec<char> = Vec::with_capacity(n);
    let mut i: usize = 0;
    while i < n
        invariant
            i <= n,
            n == v@.len(),
            (match unescape_from(v@, i as int, lenient) {
                Ok(rest) => unescape_spec(v@, lenient) == Ok::<Seq<char>, EscapeError>(
                    out@ + rest,
                ),
                Err(e) => unescape_spec(v@, lenient) == Err::<Seq<char>, EscapeError>(e),
            }),
        decreases n - i,
    {
        let c = v[i];
        if c != '&' {
            let ghost before = out@;
            out.push(c);
            proof {
                match unescape_from(v@, i + 1, lenient) {
                    Ok(rest) => {
                        assert(before + (seq![v@[i as int]] + rest) =~= out@ + rest);
                    },
                    Err(_) => {},
                }
            }
            i += 1;
        } else {
            // Scan for the next `&` or `;`.
            let mut j: usize = i + 1;
            let mut found = false;
            while j < n && !found
                invariant
                    i + 1 <= j <= n,
                    n == v@.len(),
                    forall|k: int| i + 1 <= k < j ==> v@[k] != '&' && v@[k] != ';',
                    found ==> (j < n && (v@[j as int] == '&' || v@[j as int] == ';')),
                decreases n - j + (if found { 0int } else { 1int }),
            {
                if v[j] == '&' || v[j] == ';' {
                    found = true;
                } else {
                    j += 1;
                }
            }
            if !found {
                proof {
                    lemma_find_special_none(v@, i + 1);
                }
                return Err(EscapeError::UnterminatedEntity);
            }
            proof {
                lemma_find_special_found(v@, i + 1, j as int);
            }
            if v[j] == '&' {
                return Err(EscapeError::UnterminatedEntity);
            }
            // `v[i+1 .. j]` is the entity body.
            let ghost body = v@.subrange(i + 1, j as int);
            if i + 1 < j && v[i + 1] == '#' {
                proof {
                    assert(body.skip(1) =~= v@.subrange(i + 2, j as int));
                }
                match parse_number_chars(v, i + 2, j) {
                    Ok(c) => {
                        let ghost before = out@;
                        out.push(c);
                        proof {
                            match parse_number_spec(body.skip(1)) {
                                Ok(code) => {
                                    vstd::utf8::char_u32_cast(c, code);
                                    assert(seq![code as char] =~= seq![c]);
                                    match unescape_from(v@, j + 1, lenient) {
                                        Ok(rest) => {
                                            assert(before + (seq![c] + rest) =~= out@ + rest);
                                        },
                                        Err(_) => {},
                                    }
                                },
                                Err(_) => {},
                            }
                        }
                    },
                    Err(e) => {
                        return Err(EscapeError::InvalidCharRef(e));
                    },
                }
            } else {
                match resolve_predefined_chars(v, i + 1, j) {
                    Some(c) => {
                        let ghost before = out@;
                        out.push(c);
                        proof {
                            match unescape_from(v@, j + 1, lenient) {
                                Ok(rest) => {
                                    assert(before + (seq![c] + rest) =~= out@ + rest);
                                },
                                Err(_) => {},
                            }
                        }
                    },
                    None => {
                        if !lenient {
                            return Err(EscapeError::UnrecognizedEntity);
                        }
                        // Keep the unknown entity verbatim.
                        let ghost before = out@;
                        let mut k: usize = i;
                        while k <= j
                            invariant
                                i <= k <= j + 1 <= n,
                                n == v@.len(),
                                out@ == before + v@.subrange(i as int, k as int),
                            decreases j + 1 - k,
                        {
                            out.push(v[k]);
                            proof {
                                assert(before + v@.subrange(i as int, k + 1) =~= out@);
                            }
                            k += 1;
                        }
                        proof {
                            assert(seq!['&'] + body + seq![';'] =~= v@.subrange(i as int, j + 1));
                            match unescape_from(v@, j + 1, lenient) {
                                Ok(rest) => {
                                    assert(before + (seq!['&'] + body + seq![';'] + rest) =~= out@
                                        + rest);
                                },
                                Err(_) => {},
                            }
                        }
                    },
                }
            }
            i = j + 1;
        }
    }
    proof {
        assert(unescape_from(v@, n as int, lenient) == Ok::<Seq<char>, EscapeError>(
            Seq::<char>::empty(),
        ));
        if unescape_spec(v@, lenient) matches Ok(s) {
            assert(out@ + Seq::<char>::empty() =~= out@);
        }
    }
    Ok(out)
}

/// Unescapes entities and character references; an unknown entity name is
/// an error.
pub fn unescape_with(raw: &str) -> (r: Result<String, EscapeError>)
    ensures
        (unescape_spec(raw@, false) matches Ok(s) ==> (r matches Ok(out) && out@ == s)),
        (unescape_spec(raw@, false) matches Err(e) ==> (r matches Err(e2) && e2 == e)),
{
    let chars = str_to_chars(raw);
    match unescape_chars(&chars, false) {
        Ok(out) => Ok(chars_to_string(&out)),
        Err(e) => Err(e),
    }
}

/// Unescapes entities and character references; an unknown entity name is
/// kept verbatim instead of failing.
pub fn unescape_with_and_ignore(raw: &str) -> (r: Result<String, EscapeError>)
    ensures
        (unescape_spec(raw@, true) matches Ok(s) ==> (r matches Ok(out) && out@ == s)),
        (unescape_spec(raw@, true) matches Err(e) ==> (r matches Err(e2) && e2 == e)),
{
    let chars = str_to_chars(raw);
    match unescape_chars(&chars, true) {
        Ok(out) => Ok(chars_to_string(&out)),
        Err(e) => Err(e),
    }
}

/// What an attribute value is stored as: whitespace-normalized first
/// when the option asks for it, then unescaped.
pub open spec fn attr_value_spec(v: Seq<char>, normalize: bool) -> Result<Seq<char>, EscapeError> {
    unescape_spec(
        if normalize {
            crate::utils::normalize_chars_spec(v)
        } else {
            v
        },
        false,
    )
}

/// Prepares an attribute value for storage: normalizes whitespace when
/// asked to, then unescapes entities and character references.
pub fn unescape_attr_value(raw: &str, normalize: bool) -> (r: Result<String, EscapeError>)
    ensures
        (attr_value_spec(raw@, normalize) matches Ok(s) ==> (r matches Ok(out) && out@ == s)),
        (attr_value_spec(raw@, normalize) matches Err(e) ==> (r matches Err(e2) && e2 == e)),
{
    let chars = str_to_chars(raw);
    let work = if normalize {
        crate::utils::normalize_space_chars(&chars)
    } else {
        chars
    };
    match unescape_chars(&work, false) {
        Ok(out) => Ok(chars_to_string(&out)),
        Err(e) => Err(e),
    }
}

/// Resolves one general reference body (the text between `&` and `;`):
/// a predefined entity name or a `#...` character reference.
pub fn resolve_reference(body: &str) -> (r: Result<String, EscapeError>)
    ensures
        (resolve_entity_spec(body@, false) matches Ok(rep) ==> (r matches Ok(out) && out@ == rep)),
        (resolve_entity_spec(body@, false) matches Err(e) ==> (r matches Err(e2) && e2 == e)),
{
    let chars = str_to_chars(body);
    let n = chars.len();
    proof {
        assert(chars@.subrange(0, n as int) =~= body@);
    }
    if n > 0 && chars[0] == '#' {
        proof {
            assert(body@.skip(1) =~= chars@.subrange(1, n as int));
        }
        match parse_number_chars(&chars, 1, n) {
            Ok(c) => {
                let mut one: Vec<char> = Vec::with_capacity(1);
                one.push(c);
                proof {
                    match parse_number_spec(body@.skip(1)) {
                        Ok(code) => {
                            vstd::utf8::char_u32_cast(c, code);
                            assert(one@ =~= seq![code as char]);
                        },
                        Err(_) => {},
                    }
                }
                Ok(chars_to_string(&one))
            },
            Err(e) => Err(EscapeError::InvalidCharRef(e)),
        }
    } else {
        match resolve_predefined_chars(&chars, 0, n) {
            Some(c) => {
                let mut one: Vec<char> = Vec::with_capacity(1);
                one.push(c);
                proof {
                    assert(one@ =~= seq![c]);
                }
                Ok(chars_to_string(&one))
            },
            None => Err(EscapeError::UnrecognizedEntity),
        }
    }
}

/// A doctype payload with the single leading space the tokenizer may
/// report stripped off.
pub open spec fn strip_leading_space_spec(v: Seq<char>) -> Seq<char> {
    if v.len() > 0 && v[0] == ' ' {
        v.skip(1)
    } else {
        v
    }
}

/// The escaped form of one character: each of the five special characters
/// becomes its predefined entity, every other character stays itself.
pub open spec fn escape_char_spec(c: char) -> Seq<char> {
    if c == '<' {
        seq!['&', 'l', 't', ';']
    } else if c == '>' {
        seq!['&', 'g', 't', ';']
    } else if c == '&' {
        seq!['&', 'a', 'm', 'p', ';']
    } else if c == '\'' {
        seq!['&', 'a', 'p', 'o', 's', ';']
    } else if c == '"' {
        seq!['&', 'q', 'u', 'o', 't', ';']
    } else {
        seq![c]
    }
}

/// The escaped form of a string: each character escaped in order.
pub open spec fn escape_spec(s: Seq<char>) -> Seq<char>
    decreases s.len(),
{
    if s.len() == 0 {
        Seq::<char>::empty()
    } else {
        escape_char_spec(s[0]) + escape_spec(s.drop_first())
    }
}

fn escape_chars(v: &Vec<char>) -> (out: Vec<char>)
    ensures
        out@ == escape_spec(v@),
{
    let n = v.len();
    let mut out: Vec<char> = Vec::with_capacity(n);
    let mut i: usize = 0;
    proof {
        assert(v@.skip(0) =~= v@);
        assert(Seq::<char>::empty() + escape_spec(v@) =~= escape_spec(v@));
    }
    while i < n
        invariant
            i <= n,
            n == v@.len(),
            escape_spec(v@) == out@ + escape_spec(v@.skip(i as int)),
        decreases n - i,
    {
        let ghost before = out@;
        let c = v[i];
        if c == '<' {
            out.push('&');
            out.push('l');
            out.push('t');
            out.push(';');
        } else if c == '>' {
            out.push('&');
            out.push('g');
            out.push('t');
            out.push(';');
        } else if c == '&' {
            out.push('&');
            out.push('a');
            out.push('m');
            out.push('p');
            out.push(';');
        } else if c == '\'' {
            out.push('&');
            out.push('a');
            out.push('p');
            out.push('o');
            out.push('s');
            out.push(';');
        } else if c == '"' {
            out.push('&');
            out.push('q');
            out.push('u');
            out.push('o');
            out.push('t');
            out.push(';');
        } else {
            out.push(c);
        }
        proof {
            let rest = v@.skip(i as int);
            assert(rest[0] == v@[i as int]);
            assert(rest.drop_first() =~= v@.skip(i + 1));
            assert(out@ =~= before + escape_char_spec(v@[i as int]));
            assert(before + (escape_char_spec(v@[i as int]) + escape_spec(v@.skip(i + 1))) =~= out@
                + escape_spec(v@.skip(i + 1)));
        }
        i += 1;
    }
    proof {
        assert(v@.skip(n as int) =~= Seq::<char>::empty());
        assert(out@ + escape_spec(Seq::<char>::empty()) =~= out@);
    }
    out
}

/// Escapes the five special characters of `raw` into their predefined
/// entities.
pub fn escape(raw: &str) -> (r: String)
    ensures
        r@ == escape_spec(raw@),
{
    let chars = str_to_chars(raw);
    let out = escape_chars(&chars);
    chars_to_string(&out)
}

} // verus!
