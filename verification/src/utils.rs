//! Small byte-level utilities: XML whitespace tests, the attribute-value
//! whitespace normalization rule, and namespace-declaration detection.

pub mod encoding;

use vstd::prelude::*;

verus! {

/// The XML whitespace characters: CR, LF, TAB and space.
pub open spec fn is_ws(b: u8) -> bool {
    b == 13 || b == 10 || b == 9 || b == 32
}

/// Returns true if byte is an XML whitespace character.
#[verifier::when_used_as_spec(is_ws)]
pub fn is_whitespace(byte: u8) -> (r: bool)
    ensures
        r == is_ws(byte),
{
    byte == 13 || byte == 10 || byte == 9 || byte == 32
}

/// Returns true if `bytes` is empty or holds only XML whitespace.
pub fn only_has_whitespace(bytes: &[u8]) -> (r: bool)
    ensures
        r == (forall|i: int| 0 <= i < bytes@.len() ==> is_ws(bytes@[i])),
{
    let n = bytes.len();
    let mut idx: usize = 0;
    while idx < n
        invariant
            idx <= n,
            n == bytes@.len(),
            forall|i: int| 0 <= i < idx ==> is_ws(bytes@[i]),
        decreases n - idx,
    {
        if !is_whitespace(bytes[idx]) {
            return false;
        }
        idx += 1;
    }
    true
}

/// One step of the whitespace-normalization pass: the state is the output
/// so far, whether a non-space character has been seen, and whether the
/// last pushed byte was the collapsed space.
pub open spec fn norm_space_step(st: (Seq<u8>, bool, bool), b: u8) -> (Seq<u8>, bool, bool) {
    if is_ws(b) {
        if st.1 && !st.2 {
            (st.0.push(32), st.1, true)
        } else {
            st
        }
    } else {
        (st.0.push(b), true, false)
    }
}

/// The normalization state after consuming the first `i` bytes of `s`.
pub open spec fn norm_space_state(s: Seq<u8>, i: int) -> (Seq<u8>, bool, bool)
    decreases i,
{
    if i <= 0 {
        (Seq::<u8>::empty(), false, false)
    } else {
        norm_space_step(norm_space_state(s, i - 1), s[i - 1])
    }
}

/// The XML attribute-value normalization rule on whitespace: CR, LF and
/// TAB become spaces, runs of whitespace collapse to a single space, and
/// leading and trailing whitespace is discarded.
pub open spec fn normalize_space_spec(s: Seq<u8>) -> Seq<u8> {
    let st = norm_space_state(s, s.len() as int);
    if st.0.len() > 0 && st.0.last() == 32 {
        st.0.drop_last()
    } else {
        st.0
    }
}

/// Normalizes whitespace in an attribute value, before entity unescaping:
/// `#xD`, `#xA` and `#x9` become `#x20`, runs of spaces collapse to one
/// space, and leading and trailing spaces are discarded.
pub fn normalize_space(bytes: &[u8]) -> (r: Vec<u8>)
    ensures
        r@ == normalize_space_spec(bytes@),
{
    let n = bytes.len();
    let mut normalized: Vec<u8> = Vec::with_capacity(n);
    let mut char_found = false;
    let mut last_space = false;
    let mut idx: usize = 0;
    while idx < n
        invariant
            idx <= n,
            n == bytes@.len(),
            (normalized@, char_found, last_space) == norm_space_state(bytes@, idx as int),
        decreases n - idx,
    {
        let byte = bytes[idx];
        if is_whitespace(byte) {
            if char_found && !last_space {
                normalized.push(32);
                last_space = true;
            }
        } else {
            char_found = true;
            last_space = false;
            normalized.push(byte);
        }
        idx += 1;
    }
    if normalized.len() > 0 && normalized[normalized.len() - 1] == 32 {
        normalized.pop();
    }
    normalized
}

/// The XML whitespace characters, as characters.
pub open spec fn is_ws_char(c: char) -> bool {
    c == '\r' || c == '\n' || c == '\t' || c == ' '
}

/// Returns true if the character is XML whitespace.
#[verifier::when_used_as_spec(is_ws_char)]
pub fn is_whitespace_char(c: char) -> (r: bool)
    ensures
        r == is_ws_char(c),
{
    c == '\r' || c == '\n' || c == '\t' || c == ' '
}

/// Returns true if the string is empty or holds only XML whitespace.
pub fn str_only_whitespace(s: &str) -> (r: bool)
    ensures
        r == (forall|i: int| 0 <= i < s@.len() ==> is_ws_char(s@[i])),
{
    let n = s.unicode_len();
    let mut idx: usize = 0;
    while idx < n
        invariant
            idx <= n,
            n == s@.len(),
            forall|i: int| 0 <= i < idx ==> is_ws_char(s@[i]),
        decreases n - idx,
    {
        if !is_whitespace_char(s.get_char(idx)) {
            return false;
        }
        idx += 1;
    }
    true
}

/// One step of the character-level whitespace-normalization pass, the
/// same rule as [`norm_space_step`] but over characters.
pub open spec fn norm_chars_step(st: (Seq<char>, bool, bool), c: char) -> (Seq<char>, bool, bool) {
    if is_ws_char(c) {
        if st.1 && !st.2 {
            (st.0.push(' '), st.1, true)
        } else {
            st
        }
    } else {
        (st.0.push(c), true, false)
    }
}

/// The character-level normalization state after the first `i` characters.
pub open spec fn norm_chars_state(s: Seq<char>, i: int) -> (Seq<char>, bool, bool)
    decreases i,
{
    if i <= 0 {
        (Seq::<char>::empty(), false, false)
    } else {
        norm_chars_step(norm_chars_state(s, i - 1), s[i - 1])
    }
}

/// The whitespace-normalization rule over characters: CR, LF and TAB
/// become spaces, runs collapse to one space, and the ends are trimmed.
pub open spec fn normalize_chars_spec(s: Seq<char>) -> Seq<char> {
    let st = norm_chars_state(s, s.len() as int);
    if st.0.len() > 0 && st.0.last() == ' ' {
        st.0.drop_last()
    } else {
        st.0
    }
}

/// Normalizes whitespace in a character vector, as [`normalize_space`]
/// does for bytes.
pub fn normalize_space_chars(chars: &Vec<char>) -> (r: Vec<char>)
    ensures
        r@ == normalize_chars_spec(chars@),
{
    let n = chars.len();
    let mut normalized: Vec<char> = Vec::with_capacity(n);
    let mut char_found = false;
    let mut last_space = false;
    let mut idx: usize = 0;
    while idx < n
        invariant
            idx <= n,
            n == chars@.len(),
            (normalized@, char_found, last_space) == norm_chars_state(chars@, idx as int),
        decreases n - idx,
    {
        let c = chars[idx];
        if is_whitespace_char(c) {
            if char_found && !last_space {
                normalized.push(' ');
                last_space = true;
            }
        } else {
            char_found = true;
            last_space = false;
            normalized.push(c);
        }
        idx += 1;
    }
    if normalized.len() > 0 && normalized[normalized.len() - 1] == ' ' {
        normalized.pop();
    }
    normalized
}

/// Collects the characters of a string slice into a vector.
pub fn str_to_chars(s: &str) -> (v: Vec<char>)
    ensures
        v@ == s@,
{
    let n = s.unicode_len();
    let mut v: Vec<char> = Vec::with_capacity(n);
    let mut idx: usize = 0;
    while idx < n
        invariant
            idx <= n,
            n == s@.len(),
            v@ == s@.take(idx as int),
        decreases n - idx,
    {
        v.push(s.get_char(idx));
        proof {
            assert(v@ =~= s@.take(idx + 1));
        }
        idx += 1;
    }
    proof {
        assert(s@.take(n as int) =~= s@);
    }
    v
}

/// Appends the characters of `s` to `out`.
pub fn push_chars(out: &mut Vec<char>, s: &str)
    ensures
        final(out)@ == old(out)@ + s@,
{
    let n = s.unicode_len();
    let mut idx: usize = 0;
    proof {
        assert(old(out)@ + s@.take(0) =~= old(out)@);
    }
    while idx < n
        invariant
            idx <= n,
            n == s@.len(),
            out@ == old(out)@ + s@.take(idx as int),
        decreases n - idx,
    {
        out.push(s.get_char(idx));
        proof {
            assert(old(out)@ + s@.take(idx + 1) =~= out@);
        }
        idx += 1;
    }
    proof {
        assert(old(out)@ + s@.take(n as int) =~= old(out)@ + s@);
    }
}

/// Relies on `String`'s `FromIterator` implementation: collecting
/// characters builds the string of exactly those characters in order.
#[verifier::external_body]
pub(crate) fn chars_to_string(v: &Vec<char>) -> (s: String)
    ensures
        s@ == v@,
{
    v.iter().collect()
}

/// The five bytes `xmlns`.
pub open spec fn xmlns_bytes() -> Seq<u8> {
    seq![120, 109, 108, 110, 115]
}

/// Returns true if the attribute name begins with `xmlns`, which marks a
/// namespace declaration.
pub fn is_xlmns(bytes: &[u8]) -> (r: bool)
    ensures
        r == (bytes@.len() >= 5 && bytes@.take(5) == xmlns_bytes()),
{
    if bytes.len() < 5 {
        return false;
    }
    let r = bytes[0] == 120 && bytes[1] == 109 && bytes[2] == 108 && bytes[3] == 110
        && bytes[4] == 115;
    proof {
        if r {
            assert(bytes@.take(5) =~= xmlns_bytes());
        } else {
            assert(bytes@.take(5) != xmlns_bytes());
        }
    }
    r
}

} // verus!
