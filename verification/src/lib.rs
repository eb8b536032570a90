//! Validation of the structured billing information that a Swiss payment
//! slip carries in its free-text field, following the Swico S1 syntax, and
//! of the account number against the payment reference.
//!
//! A document is a set of field values, [`billing_infos::swico::StructuredSet`],
//! wrapped in a [`billing_infos::swico::syntax::Version`]. Its method
//! `validate_syntax` checks every value against the syntax of its field and
//! returns the document unchanged or the first fault; `raw_data` collects the
//! lines that the document hands on to the slip. What each check accepts is
//! stated as a function on sequences of characters, next to the check.

pub mod billing_infos;
pub mod utils;

use crate::billing_infos::swico::numeric::is_digit;
use crate::billing_infos::swico::text::to_chars;
use vstd::prelude::*;

verus! {

/// First institution number set apart for payments with a QR reference.
pub const QR_IID_START: usize = 30000;

/// Last institution number set apart for payments with a QR reference.
pub const QR_IID_END: usize = 31999;

/// Why an account number and a payment reference do not go together.
#[derive(Debug, PartialEq, Eq)]
pub enum Error {
    /// The account takes a QR reference only; the text is the account
    /// number.
    InvalidQriid(String),
    /// The account takes no QR reference; the text is the account number.
    InvalidIid(String),
}

/// The payment reference of a slip.
#[derive(Debug, PartialEq, Eq)]
pub enum Reference {
    /// A QR reference.
    Qrr(String),
    /// A creditor reference.
    Scor(String),
    /// No reference.
    Non,
}

/// What this library reads of an account number in electronic form: at
/// least nine characters, of which the fifth to the ninth are digits, the
/// number of the institution.
pub open spec fn names_institution(electronic: Seq<char>) -> bool {
    &&& electronic.len() >= 9
    &&& forall|k: int| 4 <= k < 9 ==> is_digit(#[trigger] electronic[k])
}

/// An account number in electronic form, without spaces.
#[derive(Debug)]
pub struct Iban {
    electronic: String,
}

impl View for Iban {
    type V = Seq<char>;

    closed spec fn view(&self) -> Seq<char> {
        self.electronic@
    }
}

impl Iban {
    #[verifier::type_invariant]
    spec fn is_valid(self) -> bool {
        names_institution(self.electronic@)
    }

    /// The account number `electronic`, if it names an institution.
    pub fn new(electronic: &str) -> (r: Option<Iban>)
        ensures
            match r {
                Some(iban) => iban@ == electronic@ && names_institution(electronic@),
                None => !names_institution(electronic@),
            },
    {
        let chars = to_chars(electronic);
        if chars.len() < 9 {
            return None;
        }
        let mut i: usize = 4;
        while i < 9
            invariant
                4 <= i <= 9,
                chars@ == electronic@,
                chars@.len() >= 9,
                forall|k: int| 4 <= k < i ==> is_digit(#[trigger] chars@[k]),
            decreases 9 - i,
        {
            let c = chars[i];
            if !('0' <= c && c <= '9') {
                return None;
            }
            i += 1;
        }
        Some(Iban { electronic: electronic.to_owned() })
    }

    /// The account number in electronic form.
    pub fn electronic_str(&self) -> (s: &str)
        ensures
            s@ == self@,
            names_institution(self@),
    {
        proof {
            use_type_invariant(self);
        }
        self.electronic.as_str()
    }
}

} // verus!
