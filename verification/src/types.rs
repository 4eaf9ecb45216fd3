//! The `standalone` marker of an XML declaration.

use crate::error::{EditXMLError, MalformedReason};
use vstd::prelude::*;

verus! {

/// `yes`, in any ASCII case mix.
pub open spec fn is_yes_value(s: Seq<char>) -> bool {
    s.len() == 3 && (s[0] == 'y' || s[0] == 'Y') && (s[1] == 'e' || s[1] == 'E') && (s[2] == 's'
        || s[2] == 'S')
}

/// `no`, in any ASCII case mix.
pub open spec fn is_no_value(s: Seq<char>) -> bool {
    s.len() == 2 && (s[0] == 'n' || s[0] == 'N') && (s[1] == 'o' || s[1] == 'O')
}

/// Value of the `standalone` attribute of an XML declaration.
#[derive(Debug, Clone, Copy, PartialEq, Eq, Structural, Hash)]
pub enum StandaloneValue {
    Yes,
    No,
}

impl Default for StandaloneValue {
    fn default() -> (r: Self)
        ensures
            r is No,
    {
        StandaloneValue::No
    }
}

impl StandaloneValue {
    /// The value as it is written in a declaration.
    pub fn as_str(&self) -> (r: &'static str)
        ensures
            self is Yes ==> r@ == "yes"@,
            self is No ==> r@ == "no"@,
    {
        match self {
            StandaloneValue::Yes => "yes",
            StandaloneValue::No => "no",
        }
    }

    /// The value as bytes, as it is written in a declaration.
    pub fn as_bytes(&self) -> (r: &'static [u8])
        ensures
            self is Yes ==> r@ == seq![121u8, 101u8, 115u8],
            self is No ==> r@ == seq![110u8, 111u8],
    {
        match self {
            StandaloneValue::Yes => &[121, 101, 115],
            StandaloneValue::No => &[110, 111],
        }
    }

    /// Whether the document was declared standalone.
    pub fn is_standalone(&self) -> (r: bool)
        ensures
            r == (self is Yes),
    {
        match self {
            StandaloneValue::Yes => true,
            StandaloneValue::No => false,
        }
    }

    /// Parses `yes` or `no`, in any ASCII case; anything else is an
    /// invalid standalone value.
    pub fn try_from(value: &str) -> (r: Result<Self, EditXMLError>)
        ensures
            is_yes_value(value@) ==> (r matches Ok(v) && v is Yes),
            is_no_value(value@) ==> (r matches Ok(v) && v is No),
            !is_yes_value(value@) && !is_no_value(value@) ==> (r matches Err(e) && e matches
                EditXMLError::MalformedXML(MalformedReason::InvalidStandAloneValue)),
    {
        let n = value.unicode_len();
        let yes = n == 3 && (value.get_char(0) == 'y' || value.get_char(0) == 'Y') && (
        value.get_char(1) == 'e' || value.get_char(1) == 'E') && (value.get_char(2) == 's'
            || value.get_char(2) == 'S');
        let no = n == 2 && (value.get_char(0) == 'n' || value.get_char(0) == 'N') && (
        value.get_char(1) == 'o' || value.get_char(1) == 'O');
        if yes {
            Ok(StandaloneValue::Yes)
        } else if no {
            Ok(StandaloneValue::No)
        } else {
            Err(EditXMLError::MalformedXML(MalformedReason::InvalidStandAloneValue))
        }
    }
}

/// String equality on slices, with the result reflected into the views.
/// The comparison goes through owned strings because equality is
/// specified on those.
pub fn compare_str(a: &str, b: &str) -> (r: bool)
    ensures
        r == (a@ == b@),
{
    let a_owned = String::from_str(a);
    let b_owned = String::from_str(b);
    a_owned == b_owned
}

} // verus!
