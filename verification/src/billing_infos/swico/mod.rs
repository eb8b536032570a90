//! The Swico S1 encoding: its fields and the set of values of one document.

pub mod amounts;
pub mod date;
pub mod numeric;
pub mod syntax;
pub mod text;

use vstd::prelude::*;

verus! {

/// Format of a date inside a field value: two digits each for year, month
/// and day.
pub const DATE_FMT: &'static str = "%y%m%d";

/// Number of fields that the encoding knows.
pub const COMPONENT_COUNT: usize = 9;

/// A field of the structured billing information.
///
/// The variants are declared in the order in which a document lists them.
#[derive(Clone, Copy, Debug, PartialEq, Eq, PartialOrd, Ord, Hash, Structural)]
pub enum SwicoComponent {
    DocDate,
    VatDate,
    VatNum,
    InvoiceRef,
    ClientRef,
    VatDetails,
    VatImport,
    Conditions,
    Unstructured,
}

impl SwicoComponent {
    /// Position of the field in declaration order.
    pub open spec fn spec_index(self) -> int {
        match self {
            SwicoComponent::DocDate => 0,
            SwicoComponent::VatDate => 1,
            SwicoComponent::VatNum => 2,
            SwicoComponent::InvoiceRef => 3,
            SwicoComponent::ClientRef => 4,
            SwicoComponent::VatDetails => 5,
            SwicoComponent::VatImport => 6,
            SwicoComponent::Conditions => 7,
            SwicoComponent::Unstructured => 8,
        }
    }

    /// The field at position `i` of the declaration order.
    pub open spec fn spec_from_index(i: int) -> SwicoComponent {
        if i == 0 {
            SwicoComponent::DocDate
        } else if i == 1 {
            SwicoComponent::VatDate
        } else if i == 2 {
            SwicoComponent::VatNum
        } else if i == 3 {
            SwicoComponent::InvoiceRef
        } else if i == 4 {
            SwicoComponent::ClientRef
        } else if i == 5 {
            SwicoComponent::VatDetails
        } else if i == 6 {
            SwicoComponent::VatImport
        } else if i == 7 {
            SwicoComponent::Conditions
        } else {
            SwicoComponent::Unstructured
        }
    }

    /// The tag that introduces the field in the encoded text.
    pub open spec fn spec_prefix(self) -> Seq<char> {
        match self {
            SwicoComponent::DocDate => "/11/"@,
            SwicoComponent::VatDate => "/31/"@,
            SwicoComponent::VatNum => "/30/"@,
            SwicoComponent::InvoiceRef => "/10/"@,
            SwicoComponent::ClientRef => "/20/"@,
            SwicoComponent::VatDetails => "/32/"@,
            SwicoComponent::VatImport => "/33/"@,
            SwicoComponent::Conditions => "/40/"@,
            SwicoComponent::Unstructured => ""@,
        }
    }

    /// Position of the field in declaration order.
    pub fn index(self) -> (i: usize)
        ensures
            i == self.spec_index(),
            i < COMPONENT_COUNT,
    {
        match self {
            SwicoComponent::DocDate => 0,
            SwicoComponent::VatDate => 1,
            SwicoComponent::VatNum => 2,
            SwicoComponent::InvoiceRef => 3,
            SwicoComponent::ClientRef => 4,
            SwicoComponent::VatDetails => 5,
            SwicoComponent::VatImport => 6,
            SwicoComponent::Conditions => 7,
            SwicoComponent::Unstructured => 8,
        }
    }

    /// The field at position `i`, if there is one.
    pub fn from_index(i: usize) -> (r: Option<SwicoComponent>)
        ensures
            i < COMPONENT_COUNT ==> r == Some(Self::spec_from_index(i as int)),
            i >= COMPONENT_COUNT ==> r is None,
    {
        match i {
            0 => Some(SwicoComponent::DocDate),
            1 => Some(SwicoComponent::VatDate),
            2 => Some(SwicoComponent::VatNum),
            3 => Some(SwicoComponent::InvoiceRef),
            4 => Some(SwicoComponent::ClientRef),
            5 => Some(SwicoComponent::VatDetails),
            6 => Some(SwicoComponent::VatImport),
            7 => Some(SwicoComponent::Conditions),
            8 => Some(SwicoComponent::Unstructured),
            _ => None,
        }
    }

    /// The tag that introduces the field in the encoded text.
    pub fn prefix(self) -> (p: &'static str)
        ensures
            p@ == self.spec_prefix(),
    {
        match self {
            SwicoComponent::DocDate => "/11/",
            SwicoComponent::VatDate => "/31/",
            SwicoComponent::VatNum => "/30/",
            SwicoComponent::InvoiceRef => "/10/",
            SwicoComponent::ClientRef => "/20/",
            SwicoComponent::VatDetails => "/32/",
            SwicoComponent::VatImport => "/33/",
            SwicoComponent::Conditions => "/40/",
            SwicoComponent::Unstructured => "",
        }
    }
}

/// No two fields have the same tag, so that a tag names its field.
pub proof fn lemma_prefix_names_component(a: SwicoComponent, b: SwicoComponent)
    requires
        a.spec_prefix() == b.spec_prefix(),
    ensures
        a == b,
{
    reveal_strlit("/11/");
    reveal_strlit("/31/");
    reveal_strlit("/30/");
    reveal_strlit("/10/");
    reveal_strlit("/20/");
    reveal_strlit("/32/");
    reveal_strlit("/33/");
    reveal_strlit("/40/");
    reveal_strlit("");
    assert(""@.len() == 0);
    assert("/11/"@.len() == 4 && "/11/"@[1] == '1' && "/11/"@[2] == '1');
    assert("/31/"@.len() == 4 && "/31/"@[1] == '3' && "/31/"@[2] == '1');
    assert("/30/"@.len() == 4 && "/30/"@[1] == '3' && "/30/"@[2] == '0');
    assert("/10/"@.len() == 4 && "/10/"@[1] == '1' && "/10/"@[2] == '0');
    assert("/20/"@.len() == 4 && "/20/"@[1] == '2' && "/20/"@[2] == '0');
    assert("/32/"@.len() == 4 && "/32/"@[1] == '3' && "/32/"@[2] == '2');
    assert("/33/"@.len() == 4 && "/33/"@[1] == '3' && "/33/"@[2] == '3');
    assert("/40/"@.len() == 4 && "/40/"@[1] == '4' && "/40/"@[2] == '0');
}

/// Positions and fields correspond one to one.
pub proof fn lemma_index_round_trip(c: SwicoComponent, i: int)
    ensures
        SwicoComponent::spec_from_index(c.spec_index()) == c,
        0 <= c.spec_index() < COMPONENT_COUNT,
        0 <= i < COMPONENT_COUNT ==> SwicoComponent::spec_from_index(i).spec_index() == i,
{
}

/// The field values of one document: at most one value for each field.
#[derive(Debug)]
pub struct StructuredSet {
    slots: Vec<Option<String>>,
}

impl View for StructuredSet {
    type V = Map<SwicoComponent, Seq<char>>;

    /// The value of each field that has one.
    closed spec fn view(&self) -> Map<SwicoComponent, Seq<char>> {
        Map::new(
            |c: SwicoComponent| self.slots@[c.spec_index()] is Some,
            |c: SwicoComponent| self.slots@[c.spec_index()]->0@,
        )
    }
}

impl StructuredSet {
    #[verifier::type_invariant]
    spec fn has_all_slots(self) -> bool {
        self.slots@.len() == COMPONENT_COUNT
    }

    /// A set without values.
    pub fn new() -> (set: StructuredSet)
        ensures
            set@ == Map::<SwicoComponent, Seq<char>>::empty(),
    {
        let mut slots: Vec<Option<String>> = Vec::new();
        while slots.len() < COMPONENT_COUNT
            invariant
                slots@.len() <= COMPONENT_COUNT,
                forall|i: int| 0 <= i < slots@.len() ==> slots@[i] is None,
            decreases COMPONENT_COUNT - slots@.len(),
        {
            slots.push(None);
        }
        StructuredSet { slots }
    }

    /// The value of the field `key`, if it has one.
    pub fn get(&self, key: &SwicoComponent) -> (value: Option<&String>)
        ensures
            match value {
                Some(text) => self@.contains_key(*key) && self@[*key] == text@,
                None => !self@.contains_key(*key),
            },
    {
        proof {
            use_type_invariant(self);
        }
        self.slots[key.index()].as_ref()
    }

    /// Gives the field `key` the value `value` and returns the value it had.
    pub fn insert(&mut self, key: SwicoComponent, value: String) -> (previous: Option<String>)
        ensures
            final(self)@ == old(self)@.insert(key, value@),
            match previous {
                Some(text) => old(self)@.contains_key(key) && old(self)@[key] == text@,
                None => !old(self)@.contains_key(key),
            },
    {
        proof {
            use_type_invariant(&*self);
        }
        let mut slot = Some(value);
        let i = key.index();
        core::mem::swap(&mut self.slots[i], &mut slot);
        proof {
            assert forall|c: SwicoComponent| c.spec_index() == i implies c == key by {
                lemma_index_round_trip(c, 0);
                lemma_index_round_trip(key, 0);
            }
        }
        slot
    }
}

impl Clone for StructuredSet {
    fn clone(&self) -> (copy: StructuredSet)
        ensures
            copy@ == self@,
    {
        proof {
            use_type_invariant(self);
        }
        let mut slots: Vec<Option<String>> = Vec::new();
        while slots.len() < COMPONENT_COUNT
            invariant
                self.slots@.len() == COMPONENT_COUNT,
                slots@.len() <= COMPONENT_COUNT,
                forall|i: int| 0 <= i < slots@.len() ==> slots@[i] == self.slots@[i],
            decreases COMPONENT_COUNT - slots@.len(),
        {
            let slot = match &self.slots[slots.len()] {
                Some(text) => Some(text.clone()),
                None => None,
            };
            slots.push(slot);
        }
        StructuredSet { slots }
    }
}

} // verus!
