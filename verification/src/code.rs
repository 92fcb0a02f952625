//! The shape of the codes that identify a station.
//!
//! The offset a station code receives in the master is permanent, so a code
//! that arrives one character short is a different station, not a typo. Every
//! boundary that admits a code checks its shape, and the wording of the
//! complaint lives here.

use vstd::prelude::*;

use crate::text::{debug_quoted, nat_text, quoted, usize_text};

verus! {

/// Which code column a value came from, and therefore what shape it must have.
#[derive(Debug, Clone, Copy, PartialEq, Eq)]
pub enum CodeShape {
    /// AreaForecastLocalE, three digits.
    Region,
    /// AreaInformationCity, seven digits, zero padded.
    City,
    /// PointSeismicIntensity, seven digits, zero padded: the station identity.
    Point,
}

/// Whether a character is one of `0`..=`9`.
pub open spec fn is_ascii_digit(c: char) -> bool {
    '0' <= c && c <= '9'
}

/// Whether every character of `s` is an ASCII digit.
pub open spec fn all_ascii_digits(s: Seq<char>) -> bool {
    forall|i: int| 0 <= i < s.len() ==> is_ascii_digit(#[trigger] s[i])
}

impl CodeShape {
    pub open spec fn spec_width(self) -> nat {
        match self {
            CodeShape::Region => 3,
            CodeShape::City | CodeShape::Point => 7,
        }
    }

    pub open spec fn spec_label(self) -> Seq<char> {
        match self {
            CodeShape::Region => "region code"@,
            CodeShape::City => "city code"@,
            CodeShape::Point => "station code"@,
        }
    }

    /// Exactly `width` ASCII digits.
    pub open spec fn spec_accepts(self, value: Seq<char>) -> bool {
        value.len() == self.spec_width() && all_ascii_digits(value)
    }

    /// A code of digits only that is shorter than its width: for the seven
    /// digit codes, the mark of a lost leading zero.
    pub open spec fn lost_leading_zero(self, value: Seq<char>) -> bool {
        (self == CodeShape::City || self == CodeShape::Point)
            && value.len() < self.spec_width() && all_ascii_digits(value)
    }

    pub open spec fn spec_violation(self, value: Seq<char>) -> Seq<char> {
        self.spec_label() + " "@ + debug_quoted(value) + " is not "@ + nat_text(self.spec_width())
            + " ASCII digits"@ + if self.lost_leading_zero(value) {
            "; a leading zero was probably lost"@
        } else {
            Seq::empty()
        }
    }

    pub fn width(self) -> (w: usize)
        ensures
            w == self.spec_width(),
    {
        match self {
            CodeShape::Region => 3,
            CodeShape::City | CodeShape::Point => 7,
        }
    }

    pub fn label(self) -> (l: &'static str)
        ensures
            l@ == self.spec_label(),
    {
        match self {
            CodeShape::Region => "region code",
            CodeShape::City => "city code",
            CodeShape::Point => "station code",
        }
    }

    /// Exactly [`Self::width`] ASCII digits.
    pub fn accepts(self, value: &str) -> (ok: bool)
        ensures
            ok == self.spec_accepts(value@),
    {
        let n = value.unicode_len();
        if n != self.width() {
            return false;
        }
        all_digits(value)
    }

    /// How a value that [`Self::accepts`] rejected should be reported.
    pub fn describe_violation(self, value: &str) -> (m: String)
        ensures
            m@ == self.spec_violation(value@),
    {
        let mut message = String::from_str(self.label());
        message.append(" ");
        message.append(quoted(value).as_str());
        message.append(" is not ");
        message.append(usize_text(self.width()).as_str());
        message.append(" ASCII digits");
        let lost = match self {
            CodeShape::City | CodeShape::Point => value.unicode_len() < self.width() && all_digits(value),
            CodeShape::Region => false,
        };
        if lost {
            message.append("; a leading zero was probably lost");
        }
        assert(message@ =~= self.spec_violation(value@));
        message
    }
}

/// Whether every character of `value` is an ASCII digit.
pub fn all_digits(value: &str) -> (ok: bool)
    ensures
        ok == all_ascii_digits(value@),
{
    let n = value.unicode_len();
    let mut i: usize = 0;
    while i < n
        invariant
            n == value@.len(),
            i <= n,
            forall|j: int| 0 <= j < i ==> is_ascii_digit(#[trigger] value@[j]),
        decreases n - i,
    {
        let c = value.get_char(i);
        if !('0' <= c && c <= '9') {
            return false;
        }
        i = i + 1;
    }
    true
}

} // verus!
