//! The errors of the syntax check, the checks of the single fields, and the
//! check of a whole document.

pub use crate::billing_infos::swico::amounts::group_control;
pub use crate::billing_infos::swico::date::{check_period, is_date_ok};

use crate::billing_infos::swico::amounts::groups_fault;
use crate::billing_infos::swico::date::date_fault;
use crate::billing_infos::swico::numeric::{all_digits, is_digits};
use crate::billing_infos::swico::text::{contains_char, to_chars};
use crate::billing_infos::swico::{StructuredSet, SwicoComponent, COMPONENT_COUNT};
use crate::billing_infos::{DataType, RawData, RawDataKind, SpecRawData};
use vstd::prelude::*;

verus! {

/// `std::num::ParseFloatError`, the standard library's error for a text
/// that is no number. Nothing is claimed of what it holds.
#[verifier::external_type_specification]
#[verifier::external_body]
pub struct ExParseFloatError(std::num::ParseFloatError);

/// What is wrong with the groups of an amount field.
#[derive(Debug, PartialEq, Eq)]
#[allow(inconsistent_fields)]
pub enum GroupError {
    /// Some groups are empty: `expected` groups in all, `found` of them
    /// empty.
    MissingGroup { expected: usize, found: usize },
    /// Subgroup `found` of group number `group` is no number.
    InvalidSubGroup { group: usize, found: String },
    /// A payment condition with this many subgroups instead of two.
    TooManySubGroups(usize),
    /// A group without subgroups.
    EmptySubgroup(usize),
    /// The day count of a payment condition is no whole number up to 255.
    InvalidDaysInCondition(String),
}

/// A `GroupError` with its texts as sequences of characters.
#[allow(inconsistent_fields)]
pub enum SpecGroupError {
    MissingGroup { expected: nat, found: nat },
    InvalidSubGroup { group: nat, found: Seq<char> },
    TooManySubGroups(nat),
    EmptySubgroup(nat),
    InvalidDaysInCondition(Seq<char>),
}

impl View for GroupError {
    type V = SpecGroupError;

    open spec fn view(&self) -> SpecGroupError {
        match self {
            GroupError::MissingGroup { expected, found } => SpecGroupError::MissingGroup {
                expected: *expected as nat,
                found: *found as nat,
            },
            GroupError::InvalidSubGroup { group, found } => SpecGroupError::InvalidSubGroup {
                group: *group as nat,
                found: found@,
            },
            GroupError::TooManySubGroups(n) => SpecGroupError::TooManySubGroups(*n as nat),
            GroupError::EmptySubgroup(n) => SpecGroupError::EmptySubgroup(*n as nat),
            GroupError::InvalidDaysInCondition(found) => SpecGroupError::InvalidDaysInCondition(
                found@,
            ),
        }
    }
}

/// Why a document is refused.
#[derive(Debug, PartialEq, Eq)]
pub enum SyntaxValidatorError {
    /// An amount field with faulty groups.
    FromGroupError(GroupError),
    /// An amount that is no number.
    FromParseFloat(std::num::ParseFloatError),
    /// A date field that cannot be read as a date.
    FromNaiveDateParse(chrono::ParseError),
    /// A reference with a `/` or `\` that is not escaped.
    InvalidEscapeChar(String),
    /// A VAT number that is not made of nine digits.
    InvalidVatNum(String),
    /// An amount field with a comma in it.
    InvalidDecimalPoint(String),
    /// A payment condition that is not made of a discount and a day count.
    InvalidConditions(String),
    /// A date field that holds neither six nor twelve characters.
    InvalidDateFormat(String),
    /// A period whose first day does not come before its last.
    StartDateEndDate(String, String),
}

/// A `SyntaxValidatorError` with its texts as sequences of characters, and
/// without what an error of another library holds.
pub enum SpecSyntaxError {
    FromGroupError(SpecGroupError),
    FromParseFloat,
    FromNaiveDateParse,
    InvalidEscapeChar(Seq<char>),
    InvalidVatNum(Seq<char>),
    InvalidDecimalPoint(Seq<char>),
    InvalidConditions(Seq<char>),
    InvalidDateFormat(Seq<char>),
    StartDateEndDate(Seq<char>, Seq<char>),
}

impl View for SyntaxValidatorError {
    type V = SpecSyntaxError;

    open spec fn view(&self) -> SpecSyntaxError {
        match self {
            SyntaxValidatorError::FromGroupError(e) => SpecSyntaxError::FromGroupError(e@),
            SyntaxValidatorError::FromParseFloat(_) => SpecSyntaxError::FromParseFloat,
            SyntaxValidatorError::FromNaiveDateParse(_) => SpecSyntaxError::FromNaiveDateParse,
            SyntaxValidatorError::InvalidEscapeChar(s) => SpecSyntaxError::InvalidEscapeChar(s@),
            SyntaxValidatorError::InvalidVatNum(s) => SpecSyntaxError::InvalidVatNum(s@),
            SyntaxValidatorError::InvalidDecimalPoint(s) => SpecSyntaxError::InvalidDecimalPoint(
                s@,
            ),
            SyntaxValidatorError::InvalidConditions(s) => SpecSyntaxError::InvalidConditions(s@),
            SyntaxValidatorError::InvalidDateFormat(s) => SpecSyntaxError::InvalidDateFormat(s@),
            SyntaxValidatorError::StartDateEndDate(start, end) => SpecSyntaxError::StartDateEndDate(
                start@,
                end@,
            ),
        }
    }
}

impl From<GroupError> for SyntaxValidatorError {
    fn from(e: GroupError) -> (r: SyntaxValidatorError) {
        SyntaxValidatorError::FromGroupError(e)
    }
}

impl vstd::std_specs::convert::FromSpecImpl<GroupError> for SyntaxValidatorError {
    open spec fn obeys_from_spec() -> bool {
        true
    }

    open spec fn from_spec(e: GroupError) -> SyntaxValidatorError {
        SyntaxValidatorError::FromGroupError(e)
    }
}

impl From<std::num::ParseFloatError> for SyntaxValidatorError {
    fn from(e: std::num::ParseFloatError) -> (r: SyntaxValidatorError) {
        SyntaxValidatorError::FromParseFloat(e)
    }
}

impl vstd::std_specs::convert::FromSpecImpl<std::num::ParseFloatError> for SyntaxValidatorError {
    open spec fn obeys_from_spec() -> bool {
        true
    }

    open spec fn from_spec(e: std::num::ParseFloatError) -> SyntaxValidatorError {
        SyntaxValidatorError::FromParseFloat(e)
    }
}

impl From<chrono::ParseError> for SyntaxValidatorError {
    fn from(e: chrono::ParseError) -> (r: SyntaxValidatorError) {
        SyntaxValidatorError::FromNaiveDateParse(e)
    }
}

impl vstd::std_specs::convert::FromSpecImpl<chrono::ParseError> for SyntaxValidatorError {
    open spec fn obeys_from_spec() -> bool {
        true
    }

    open spec fn from_spec(e: chrono::ParseError) -> SyntaxValidatorError {
        SyntaxValidatorError::FromNaiveDateParse(e)
    }
}

/// The text of a VAT number: nine digits.
pub open spec fn is_vat_number(s: Seq<char>) -> bool {
    s.len() == 9 && all_digits(s)
}

/// Checks a VAT number.
pub fn is_vat_num_ok(vatnum: &str) -> (r: Result<(), SyntaxValidatorError>)
    ensures
        match r {
            Ok(()) => is_vat_number(vatnum@),
            Err(e) => !is_vat_number(vatnum@) && e@ == SpecSyntaxError::InvalidVatNum(vatnum@),
        },
{
    if vatnum.unicode_len() != 9 || !is_digits(vatnum) {
        return Err(SyntaxValidatorError::InvalidVatNum(vatnum.to_owned()));
    }
    Ok(())
}

/// Nine digits are a VAT number; eight digits or ten are none, nor is a
/// text that holds anything but digits.
pub proof fn lemma_vat_number(s: Seq<char>)
    ensures
        s.len() == 9 && all_digits(s) ==> is_vat_number(s),
        s.len() == 8 || s.len() == 10 || !all_digits(s) ==> !is_vat_number(s),
{
}

/// A text in which every `\` is followed by `\` or `/`, which it escapes,
/// and no `/` stands without a `\` that escapes it.
pub open spec fn escapes_ok(s: Seq<char>) -> bool
    decreases s.len(),
{
    if s.len() == 0 {
        true
    } else if s[0] == '/' {
        false
    } else if s[0] == '\\' {
        s.len() >= 2 && (s[1] == '\\' || s[1] == '/') && escapes_ok(s.skip(2))
    } else {
        escapes_ok(s.skip(1))
    }
}

/// Checks that `/` and `\` are escaped wherever they occur in a reference.
pub fn invalid_chars(s: &str) -> (r: Result<(), SyntaxValidatorError>)
    ensures
        match r {
            Ok(()) => escapes_ok(s@),
            Err(e) => !escapes_ok(s@) && e@ == SpecSyntaxError::InvalidEscapeChar(s@),
        },
{
    let chars = to_chars(s);
    let n = chars.len();
    let mut i: usize = 0;
    assert(s@.skip(0) =~= s@);
    while i < n
        invariant
            i <= n,
            n == chars@.len(),
            chars@ == s@,
            escapes_ok(s@) == escapes_ok(s@.skip(i as int)),
        decreases n - i,
    {
        let ghost rest = s@.skip(i as int);
        let c = chars[i];
        if c == '/' {
            return Err(SyntaxValidatorError::InvalidEscapeChar(s.to_owned()));
        } else if c == '\\' {
            if i + 1 < n {
                let next_char = chars[i + 1];
                if next_char != '\\' && next_char != '/' {
                    return Err(SyntaxValidatorError::InvalidEscapeChar(s.to_owned()));
                }
                assert(rest.skip(2) =~= s@.skip(i + 2));
                i += 2;
            } else {
                return Err(SyntaxValidatorError::InvalidEscapeChar(s.to_owned()));
            }
        } else {
            assert(rest.skip(1) =~= s@.skip(i + 1));
            i += 1;
        }
    }
    Ok(())
}

/// A reference without `/` and `\` is in order as it stands.
pub proof fn lemma_plain_text_accepted(s: Seq<char>)
    requires
        forall|i: int| 0 <= i < s.len() ==> #[trigger] s[i] != '/' && s[i] != '\\',
    ensures
        escapes_ok(s),
    decreases s.len(),
{
    if s.len() > 0 {
        assert forall|i: int| 0 <= i < s.skip(1).len() implies #[trigger] s.skip(1)[i] != '/'
            && s.skip(1)[i] != '\\' by {
            assert(s.skip(1)[i] == s[i + 1]);
        }
        lemma_plain_text_accepted(s.skip(1));
    }
}

/// What is wrong with the amount field `value`, if anything: a comma, or
/// else what is wrong with its groups.
pub open spec fn amount_fault(value: Seq<char>, is_condition: bool) -> Option<SpecSyntaxError> {
    if value.contains(',') {
        Some(SpecSyntaxError::InvalidDecimalPoint(value))
    } else {
        match groups_fault(value, is_condition) {
            Some(fault) => Some(SpecSyntaxError::FromGroupError(fault)),
            None => None,
        }
    }
}

/// An amount field is refused for its decimal point exactly where it holds
/// a comma, whatever its groups are; the fault holds the whole value.
pub proof fn lemma_comma_refused(value: Seq<char>, is_condition: bool)
    ensures
        value.contains(',') <==> (amount_fault(value, is_condition) matches Some(
            SpecSyntaxError::InvalidDecimalPoint(_),
        )),
        value.contains(',') ==> amount_fault(value, is_condition) == Some(
            SpecSyntaxError::InvalidDecimalPoint(value),
        ),
{
}

/// What is wrong with `value` as the value of the field `component`, if
/// anything.
pub open spec fn field_fault(component: SwicoComponent, value: Seq<char>) -> Option<
    SpecSyntaxError,
> {
    match component {
        SwicoComponent::DocDate | SwicoComponent::VatDate => date_fault(value),
        SwicoComponent::VatNum => if is_vat_number(value) {
            None
        } else {
            Some(SpecSyntaxError::InvalidVatNum(value))
        },
        SwicoComponent::InvoiceRef | SwicoComponent::ClientRef => if escapes_ok(value) {
            None
        } else {
            Some(SpecSyntaxError::InvalidEscapeChar(value))
        },
        SwicoComponent::VatDetails | SwicoComponent::VatImport => amount_fault(value, false),
        SwicoComponent::Conditions => amount_fault(value, true),
        SwicoComponent::Unstructured => None,
    }
}

/// The fields whose values are checked, in the order of checking.
pub open spec fn checked_components() -> Seq<SwicoComponent> {
    seq![
        SwicoComponent::DocDate,
        SwicoComponent::VatDate,
        SwicoComponent::VatNum,
        SwicoComponent::InvoiceRef,
        SwicoComponent::ClientRef,
        SwicoComponent::VatDetails,
        SwicoComponent::VatImport,
        SwicoComponent::Conditions,
    ]
}

/// What is wrong with the value that `set` has for `component`, if it has
/// one and anything is wrong with it.
pub open spec fn present_fault(
    set: Map<SwicoComponent, Seq<char>>,
    component: SwicoComponent,
) -> Option<SpecSyntaxError> {
    if set.contains_key(component) {
        field_fault(component, set[component])
    } else {
        None
    }
}

/// The fault of the first faulty value of `set`, going through the checked
/// fields from position `from` on.
pub open spec fn first_field_fault(set: Map<SwicoComponent, Seq<char>>, from: int) -> Option<
    SpecSyntaxError,
>
    decreases checked_components().len() - from,
{
    if 0 <= from < checked_components().len() {
        match present_fault(set, checked_components()[from]) {
            Some(fault) => Some(fault),
            None => first_field_fault(set, from + 1),
        }
    } else {
        None
    }
}

/// What is wrong with the document `set`, if anything: the fault of the
/// first faulty value in the order of checking.
pub open spec fn syntax_fault(set: Map<SwicoComponent, Seq<char>>) -> Option<SpecSyntaxError> {
    first_field_fault(set, 0)
}

/// Checks an amount field: no comma, and well-formed groups.
pub fn check_amount(value: &str, is_condition: bool) -> (r: Result<(), SyntaxValidatorError>)
    ensures
        match r {
            Ok(()) => amount_fault(value@, is_condition) is None,
            Err(e) => amount_fault(value@, is_condition) == Some(e@),
        },
{
    if contains_char(value, ',') {
        return Err(SyntaxValidatorError::InvalidDecimalPoint(value.to_owned()));
    }
    match group_control(value, is_condition) {
        Ok(()) => Ok(()),
        Err(e) => Err(SyntaxValidatorError::from(e)),
    }
}

/// Checks `value` as the value of the field `component`.
pub fn check_field(component: SwicoComponent, value: &str) -> (r: Result<(), SyntaxValidatorError>)
    ensures
        match r {
            Ok(()) => field_fault(component, value@) is None,
            Err(e) => field_fault(component, value@) == Some(e@),
        },
{
    match component {
        SwicoComponent::DocDate | SwicoComponent::VatDate => is_date_ok(value),
        SwicoComponent::VatNum => is_vat_num_ok(value),
        SwicoComponent::InvoiceRef | SwicoComponent::ClientRef => invalid_chars(value),
        SwicoComponent::VatDetails | SwicoComponent::VatImport => check_amount(value, false),
        SwicoComponent::Conditions => check_amount(value, true),
        SwicoComponent::Unstructured => Ok(()),
    }
}

/// Checks the value that `set` has for `component`, if it has one.
fn check_present(set: &StructuredSet, component: SwicoComponent) -> (r: Result<
    (),
    SyntaxValidatorError,
>)
    ensures
        match r {
            Ok(()) => present_fault(set@, component) is None,
            Err(e) => present_fault(set@, component) == Some(e@),
        },
{
    match set.get(&component) {
        Some(value) => check_field(component, value.as_str()),
        None => Ok(()),
    }
}

/// The structured billing information of a document, by the version of the
/// syntax it follows.
#[derive(Debug)]
pub enum Version {
    S1(StructuredSet),
}

impl Clone for Version {
    fn clone(&self) -> (copy: Version)
        ensures
            copy@ == self@,
    {
        match self {
            Version::S1(set) => Version::S1(set.clone()),
        }
    }
}

impl View for Version {
    type V = Map<SwicoComponent, Seq<char>>;

    /// The value of each field that has one.
    open spec fn view(&self) -> Map<SwicoComponent, Seq<char>> {
        match self {
            Version::S1(set) => set@,
        }
    }
}

impl Version {
    /// Checks every value of the document, field by field in a fixed order,
    /// and hands the document back if nothing is wrong; else it returns the
    /// first fault.
    pub fn validate_syntax(self) -> (r: Result<Version, SyntaxValidatorError>)
        ensures
            match r {
                Ok(checked) => checked == self && syntax_fault(self@) is None,
                Err(e) => syntax_fault(self@) == Some(e@),
            },
    {
        proof {
            reveal_with_fuel(first_field_fault, 9);
        }
        match &self {
            Version::S1(v) => {
                check_present(v, SwicoComponent::DocDate)?;
                check_present(v, SwicoComponent::VatDate)?;
                check_present(v, SwicoComponent::VatNum)?;
                check_present(v, SwicoComponent::InvoiceRef)?;
                check_present(v, SwicoComponent::ClientRef)?;
                check_present(v, SwicoComponent::VatDetails)?;
                check_present(v, SwicoComponent::VatImport)?;
                check_present(v, SwicoComponent::Conditions)?;
            },
        }
        Ok(self)
    }
}

/// The check of a document fails with one of seven faults. It never says
/// that an amount is no number, or that a payment condition lacks a part,
/// but by the fault of a group.
pub proof fn lemma_faults_of_a_document(set: Map<SwicoComponent, Seq<char>>)
    ensures
        !(syntax_fault(set) matches Some(SpecSyntaxError::FromParseFloat)),
        !(syntax_fault(set) matches Some(SpecSyntaxError::InvalidConditions(_))),
{
    reveal_with_fuel(first_field_fault, 9);
}

/// A document is accepted exactly where every value it holds is without
/// fault for its field; a field without a value is always in order.
pub proof fn lemma_document_accepted(set: Map<SwicoComponent, Seq<char>>)
    ensures
        syntax_fault(set) is None <==> forall|c: SwicoComponent|
            set.contains_key(c) ==> field_fault(c, #[trigger] set[c]) is None,
{
    reveal_with_fuel(first_field_fault, 9);
    let order = checked_components();
    if syntax_fault(set) is None {
        assert forall|c: SwicoComponent| set.contains_key(c) implies field_fault(
            c,
            #[trigger] set[c],
        ) is None by {
            if c != SwicoComponent::Unstructured {
                assert(present_fault(set, order[c.spec_index()]) is None);
            }
        }
    }
    if forall|c: SwicoComponent| set.contains_key(c) ==> field_fault(c, #[trigger] set[c]) is None {
        assert forall|i: int| 0 <= i < order.len() implies present_fault(set, #[trigger] order[i])
            is None by {
            if set.contains_key(order[i]) {
                assert(field_fault(order[i], set[order[i]]) is None);
            }
        }
    }
}

/// The structured lines of `set` for the first `upto` fields of the
/// declaration order: for each field with a value, but the free text, its
/// tag followed by the value.
pub open spec fn structured_lines(set: Map<SwicoComponent, Seq<char>>, upto: int) -> Seq<Seq<char>>
    decreases upto,
{
    if upto <= 0 {
        Seq::<Seq<char>>::empty()
    } else {
        let component = SwicoComponent::spec_from_index(upto - 1);
        let before = structured_lines(set, upto - 1);
        if component != SwicoComponent::Unstructured && set.contains_key(component) {
            before.push(component.spec_prefix() + set[component])
        } else {
            before
        }
    }
}

/// The lines that the document `set` hands on: its free text alone as the
/// unstructured lines, its structured lines if there are any, and nothing
/// at all where it has neither.
pub open spec fn raw_data_of(set: Map<SwicoComponent, Seq<char>>) -> Option<SpecRawData> {
    let unstructured = if set.contains_key(SwicoComponent::Unstructured) {
        Some(seq![set[SwicoComponent::Unstructured]])
    } else {
        None
    };
    let lines = structured_lines(set, COMPONENT_COUNT as int);
    let structured = if lines.len() > 0 {
        Some(lines)
    } else {
        None
    };
    if unstructured is None && structured is None {
        None
    } else {
        Some(SpecRawData { unstructured, structured })
    }
}

impl RawDataKind for Version {
    /// The lines that the document hands on. It does not check the values.
    fn raw_data(&self) -> (r: Option<RawData>)
        ensures
            match r {
                Some(data) => raw_data_of(self@) == Some(data@),
                None => raw_data_of(self@) is None,
            },
    {
        let mut rd = RawData::new();
        match self {
            Version::S1(x) => {
                if let Some(u) = x.get(&SwicoComponent::Unstructured) {
                    let mut lines: Vec<String> = Vec::new();
                    lines.push(u.clone());
                    assert(lines.deep_view() =~= seq![x@[SwicoComponent::Unstructured]]);
                    rd.insert(DataType::Unstructured, lines);
                }
                let mut v: Vec<String> = Vec::new();
                let mut i: usize = 0;
                while i < COMPONENT_COUNT
                    invariant
                        i <= COMPONENT_COUNT,
                        v.deep_view() == structured_lines(x@, i as int),
                    decreases COMPONENT_COUNT - i,
                {
                    let component = SwicoComponent::from_index(i).unwrap();
                    if component != SwicoComponent::Unstructured {
                        if let Some(t) = x.get(&component) {
                            v.push(String::from_str(component.prefix()).concat(t.as_str()));
                        }
                    }
                    i += 1;
                }
                if !v.is_empty() {
                    rd.insert(DataType::Structured, v);
                }
                if !rd.is_empty() {
                    return Some(rd);
                }
            },
        }
        None
    }
}

/// A document hands on nothing exactly where it holds no value at all.
pub proof fn lemma_raw_data_absent(set: Map<SwicoComponent, Seq<char>>)
    ensures
        raw_data_of(set) is None <==> forall|c: SwicoComponent| !set.contains_key(c),
{
    reveal_with_fuel(structured_lines, 10);
    if raw_data_of(set) is None {
        assert forall|c: SwicoComponent| !set.contains_key(c) by {
            assert(SwicoComponent::spec_from_index(c.spec_index()) == c);
        }
    }
}

} // verus!
