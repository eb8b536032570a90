use qrbill::utils::{IbanKind, IbanType};
use qrbill::{Error, Iban, Reference};

#[test]
fn qr_account_takes_a_qr_reference_only() {
    let iban = "CH4431999123000889012";
    let reference = Reference::Qrr("210000000003139471430009017".to_string());
    assert_eq!(IbanType::Qriid.try_matching_reference(&reference, iban), Ok(()));
    assert_eq!(
        IbanType::Qriid.try_matching_reference(&Reference::Scor("RF18539007547034".to_string()), iban),
        Err(Error::InvalidQriid(iban.to_string()))
    );
    assert_eq!(
        IbanType::Qriid.try_matching_reference(&Reference::Non, iban),
        Err(Error::InvalidQriid(iban.to_string()))
    );
}

#[test]
fn other_account_takes_no_qr_reference() {
    let iban = "CH5800791123000889012";
    let reference = Reference::Qrr("210000000003139471430009017".to_string());
    assert_eq!(
        IbanType::Iid.try_matching_reference(&reference, iban),
        Err(Error::InvalidIid(iban.to_string()))
    );
    assert_eq!(
        IbanType::Iid.try_matching_reference(&Reference::Scor("RF18539007547034".to_string()), iban),
        Ok(())
    );
    assert_eq!(IbanType::Iid.try_matching_reference(&Reference::Non, iban), Ok(()));
}

#[test]
fn kind_by_institution_number() {
    let kind = |s: &str| *Iban::new(s).unwrap().kind().unwrap();
    assert_eq!(kind("CH4431999123000889012"), IbanType::Qriid);
    assert_eq!(kind("CH4430000123000889012"), IbanType::Qriid);
    assert_eq!(kind("CH4429999123000889012"), IbanType::Iid);
    assert_eq!(kind("CH4432000123000889012"), IbanType::Iid);
    assert_eq!(kind("CH5800791123000889012"), IbanType::Iid);
    assert_eq!(kind("CH4400000123000889012"), IbanType::Iid);
    assert_eq!(kind("CH4499999123000889012"), IbanType::Iid);
}

#[test]
fn account_number_must_name_an_institution() {
    assert!(Iban::new("CH4431999").is_some());
    assert!(Iban::new("CH443199").is_none());
    assert!(Iban::new("").is_none());
    assert!(Iban::new("CH44A1999123000889012").is_none());
    assert!(Iban::new("CH443199X123000889012").is_none());
    assert_eq!(Iban::new("CH4431999123000889012").unwrap().electronic_str(), "CH4431999123000889012");
}
