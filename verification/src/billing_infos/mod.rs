//! Billing information attached to a payment slip, and the lines it
//! contributes to the slip's free-text field.

pub mod swico;

use vstd::prelude::*;

verus! {

/// The two kinds of line that billing information hands on.
#[derive(Clone, Copy, Debug, PartialEq, Eq, Hash, Structural)]
pub enum DataType {
    /// Free text, as it was given.
    Unstructured,
    /// Field values, each behind the tag of its field.
    Structured,
}

/// The lines that billing information hands on, by kind. A kind without
/// lines is absent.
#[derive(Debug, PartialEq, Eq)]
pub struct RawData {
    pub unstructured: Option<Vec<String>>,
    pub structured: Option<Vec<String>>,
}

/// A `RawData` with its lines as sequences of characters.
pub struct SpecRawData {
    pub unstructured: Option<Seq<Seq<char>>>,
    pub structured: Option<Seq<Seq<char>>>,
}

/// The lines of `lines` as sequences of characters.
pub open spec fn lines_of(lines: Option<Vec<String>>) -> Option<Seq<Seq<char>>> {
    match lines {
        Some(v) => Some(v.deep_view()),
        None => None,
    }
}

impl View for RawData {
    type V = SpecRawData;

    open spec fn view(&self) -> SpecRawData {
        SpecRawData {
            unstructured: lines_of(self.unstructured),
            structured: lines_of(self.structured),
        }
    }
}

impl RawData {
    /// No lines of either kind.
    pub fn new() -> (data: RawData)
        ensures
            data@ == (SpecRawData { unstructured: None, structured: None }),
    {
        RawData { unstructured: None, structured: None }
    }

    /// Puts `lines` in the place of the lines of kind `kind` and returns
    /// those that were there.
    pub fn insert(&mut self, kind: DataType, lines: Vec<String>) -> (previous: Option<Vec<String>>)
        ensures
            match kind {
                DataType::Unstructured => previous == old(self).unstructured && *final(self) == (
                RawData { unstructured: Some(lines), structured: old(self).structured }),
                DataType::Structured => previous == old(self).structured && *final(self) == (
                RawData { unstructured: old(self).unstructured, structured: Some(lines) }),
            },
    {
        let mut slot = Some(lines);
        match kind {
            DataType::Unstructured => core::mem::swap(&mut self.unstructured, &mut slot),
            DataType::Structured => core::mem::swap(&mut self.structured, &mut slot),
        }
        slot
    }

    /// The lines of kind `kind`, if there are any.
    pub open spec fn spec_get(&self, kind: DataType) -> Option<Vec<String>> {
        match kind {
            DataType::Unstructured => self.unstructured,
            DataType::Structured => self.structured,
        }
    }

    /// The lines of kind `kind`, if there are any.
    pub fn get(&self, kind: DataType) -> (lines: Option<&Vec<String>>)
        ensures
            match lines {
                Some(v) => self.spec_get(kind) == Some(*v),
                None => self.spec_get(kind) is None,
            },
    {
        match kind {
            DataType::Unstructured => self.unstructured.as_ref(),
            DataType::Structured => self.structured.as_ref(),
        }
    }

    /// Whether there are no lines of either kind.
    pub fn is_empty(&self) -> (b: bool)
        ensures
            b == (self.unstructured is None && self.structured is None),
    {
        self.unstructured.is_none() && self.structured.is_none()
    }
}

/// Billing information that can hand on its lines.
pub trait RawDataKind {
    /// The lines to hand on, or `None` where there are none.
    fn raw_data(&self) -> Option<RawData>;
}

} // verus!
