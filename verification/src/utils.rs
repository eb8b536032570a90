//! The two kinds of account number, and which payment reference goes with
//! which.

use crate::billing_infos::swico::numeric::{decimal_value, is_digit};
use crate::billing_infos::swico::text::to_chars;
use crate::{Error, Iban, Reference, QR_IID_END, QR_IID_START};
use vstd::prelude::*;

verus! {

/// The kind of an account number, by the institution it names.
#[derive(Debug, Clone, Copy, PartialEq, Eq, Structural)]
pub enum IbanType {
    /// An institution set apart for payments with a QR reference.
    Qriid,
    /// Any other institution.
    Iid,
}

impl IbanType {
    /// Whether an account of this kind takes the reference `reference`: a
    /// `Qriid` account takes a QR reference and no other, an `Iid` account
    /// takes any but a QR reference.
    pub open spec fn takes(self, reference: Reference) -> bool {
        (self is Qriid) == (reference is Qrr)
    }

    /// Checks that an account of this kind takes the reference `reference`.
    /// The error names the account number `iban_str`.
    pub fn try_matching_reference(&self, reference: &Reference, iban_str: &str) -> (r: Result<
        (),
        Error,
    >)
        ensures
            match r {
                Ok(()) => self.takes(*reference),
                Err(Error::InvalidQriid(text)) => !self.takes(*reference) && self is Qriid
                    && text@ == iban_str@,
                Err(Error::InvalidIid(text)) => !self.takes(*reference) && self is Iid && text@
                    == iban_str@,
            },
    {
        match self {
            IbanType::Qriid => match reference {
                Reference::Qrr(_) => Ok(()),
                _ => Err(Error::InvalidQriid(iban_str.to_owned())),
            },
            IbanType::Iid => match reference {
                Reference::Qrr(_) => Err(Error::InvalidIid(iban_str.to_owned())),
                _ => Ok(()),
            },
        }
    }
}

/// The number of the institution in an account number in electronic form:
/// its fifth to ninth characters read as a numeral.
pub open spec fn institution_of(electronic: Seq<char>) -> nat {
    decimal_value(electronic.subrange(4, 9))
}

/// The kind of the account number with the institution number `iid`.
pub open spec fn kind_of(iid: nat) -> IbanType {
    if QR_IID_START <= iid <= QR_IID_END {
        IbanType::Qriid
    } else {
        IbanType::Iid
    }
}

/// An account number that knows its kind.
pub trait IbanKind {
    /// The kind of the account.
    fn kind<'a>(&self) -> Result<&'a IbanType, Error>;
}

impl IbanKind for Iban {
    /// The kind of the account, read off its institution number. It never
    /// fails.
    fn kind<'a>(&self) -> (r: Result<&'a IbanType, Error>)
        ensures
            r matches Ok(kind) && *kind == kind_of(institution_of(self@)),
    {
        let chars = to_chars(self.electronic_str());
        let ghost digits = self@.subrange(4, 9);
        let mut iid: usize = 0;
        let mut i: usize = 4;
        while i < 9
            invariant
                4 <= i <= 9,
                chars@ == self@,
                self@.len() >= 9,
                digits == self@.subrange(4, 9),
                forall|k: int| 4 <= k < 9 ==> is_digit(#[trigger] self@[k]),
                iid == decimal_value(digits.take(i - 4)),
                iid < 100000,
            decreases 9 - i,
        {
            let c = chars[i];
            let ghost upto = digits.take(i - 4 + 1);
            assert(upto.drop_last() =~= digits.take(i - 4));
            proof {
                lemma_decimal_value_bound(upto);
            }
            iid = iid * 10 + (c as usize - '0' as usize);
            i += 1;
        }
        assert(digits.take(5) =~= digits);
        if QR_IID_START <= iid && iid <= QR_IID_END {
            Ok(&IbanType::Qriid)
        } else {
            Ok(&IbanType::Iid)
        }
    }
}

/// A numeral of `n` digits is worth less than the `n`-th power of ten.
proof fn lemma_decimal_value_bound(s: Seq<char>)
    requires
        forall|k: int| 0 <= k < s.len() ==> is_digit(#[trigger] s[k]),
    ensures
        s.len() <= 5 ==> decimal_value(s) < 100000,
        s.len() <= 4 ==> decimal_value(s) < 10000,
        s.len() <= 3 ==> decimal_value(s) < 1000,
        s.len() <= 2 ==> decimal_value(s) < 100,
        s.len() <= 1 ==> decimal_value(s) < 10,
        s.len() == 0 ==> decimal_value(s) == 0,
    decreases s.len(),
{
    if s.len() > 0 {
        lemma_decimal_value_bound(s.drop_last());
    }
}

} // verus!
