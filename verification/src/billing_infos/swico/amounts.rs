//! Amount fields: groups divided by `;`, each made of numbers divided by
//! `:`. The fields for VAT details, VAT on import and payment conditions
//! share this form.

use crate::billing_infos::swico::numeric::{
    day_count_chars, float_chars, is_day_count_text, is_float_text,
};
use crate::billing_infos::swico::syntax::{GroupError, SpecGroupError};
use crate::billing_infos::swico::text::{
    cut_of, cuts_mark, has_empty, has_stray_separator, lemma_separator_leaves_empty_piece,
    split_on, split_ranges, to_chars,
};
use vstd::prelude::*;
use vstd::slice::slice_subrange;

verus! {

/// Number of empty pieces among `pieces`.
pub open spec fn count_empty(pieces: Seq<Seq<char>>) -> nat
    decreases pieces.len(),
{
    if pieces.len() == 0 {
        0
    } else {
        count_empty(pieces.drop_last()) + if pieces.last().len() == 0 {
            1nat
        } else {
            0nat
        }
    }
}

/// Position of the first of `subgroups`, from `from` on, that is no number;
/// their count if all are numbers.
pub open spec fn first_non_number(subgroups: Seq<Seq<char>>, from: int) -> int
    decreases subgroups.len() - from,
{
    if 0 <= from < subgroups.len() && is_float_text(subgroups[from]) {
        first_non_number(subgroups, from + 1)
    } else {
        from
    }
}

/// What is wrong with the group `group`, which stands at position `index`:
/// its first subgroup that is no number, else, for a payment condition, a
/// count of subgroups other than two or a second subgroup that is no day
/// count.
pub open spec fn group_fault(group: Seq<char>, index: nat, is_condition: bool) -> Option<
    SpecGroupError,
> {
    let subgroups = split_on(group, ':');
    let bad = first_non_number(subgroups, 0);
    if bad < subgroups.len() {
        Some(SpecGroupError::InvalidSubGroup { group: index, found: subgroups[bad] })
    } else if is_condition && subgroups.len() != 2 {
        Some(SpecGroupError::TooManySubGroups(subgroups.len()))
    } else if is_condition && !is_day_count_text(subgroups[1]) {
        Some(SpecGroupError::InvalidDaysInCondition(subgroups[1]))
    } else {
        None
    }
}

/// The fault of the first faulty group among `groups`, from position `from`
/// on.
pub open spec fn first_group_fault(groups: Seq<Seq<char>>, from: int, is_condition: bool) -> Option<
    SpecGroupError,
>
    decreases groups.len() - from,
{
    if 0 <= from < groups.len() {
        match group_fault(groups[from], from as nat, is_condition) {
            Some(fault) => Some(fault),
            None => first_group_fault(groups, from + 1, is_condition),
        }
    } else {
        None
    }
}

/// What is wrong with the amount field `s`, if anything: empty groups come
/// first, then the first faulty group.
pub open spec fn groups_fault(s: Seq<char>, is_condition: bool) -> Option<SpecGroupError> {
    let groups = split_on(s, ';');
    if count_empty(groups) > 0 {
        Some(SpecGroupError::MissingGroup { expected: groups.len(), found: count_empty(groups) })
    } else {
        first_group_fault(groups, 0, is_condition)
    }
}

/// A group whose subgroups are all numbers and which, as a payment
/// condition, is made of two subgroups of which the second is a day count.
pub open spec fn group_well_formed(group: Seq<char>, is_condition: bool) -> bool {
    let subgroups = split_on(group, ':');
    &&& forall|j: int| 0 <= j < subgroups.len() ==> is_float_text(#[trigger] subgroups[j])
    &&& is_condition ==> subgroups.len() == 2 && is_day_count_text(subgroups[1])
}

/// An amount field of which no group is empty and every group is well
/// formed.
pub open spec fn groups_well_formed(s: Seq<char>, is_condition: bool) -> bool {
    let groups = split_on(s, ';');
    forall|i: int|
        0 <= i < groups.len() ==> (#[trigger] groups[i]).len() > 0 && group_well_formed(
            groups[i],
            is_condition,
        )
}

/// The part of `s` that `cut` marks inside the part that starts at `base`.
fn piece_text(s: &str, base: usize, cut: (usize, usize)) -> (text: String)
    requires
        base + cut.1 <= s@.len() <= usize::MAX,
        cut.0 <= cut.1,
    ensures
        text@ == s@.subrange(base + cut.0, base + cut.1),
{
    s.substring_char(base + cut.0, base + cut.1).to_owned()
}

/// Checks the group of `s` that `cut` marks and that stands at position
/// `index`.
fn check_group(s: &str, chars: &[char], cut: (usize, usize), index: usize, is_condition: bool) -> (r:
    Result<(), GroupError>)
    requires
        chars@ == s@,
        cut.0 <= cut.1 <= chars@.len(),
    ensures
        match r {
            Ok(()) => group_fault(cut_of(s@, cut), index as nat, is_condition) is None,
            Err(e) => group_fault(cut_of(s@, cut), index as nat, is_condition) == Some(e@),
        },
{
    let total = chars.len();
    let group = slice_subrange(chars, cut.0, cut.1);
    let subgroups = split_ranges(group, ':');
    let ghost pieces = split_on(group@, ':');
    let mut j: usize = 0;
    while j < subgroups.len()
        invariant
            j <= subgroups@.len(),
            chars@ == s@,
            cut.0 <= cut.1 <= chars@.len() == total,
            group@ == chars@.subrange(cut.0 as int, cut.1 as int),
            cuts_mark(group@, subgroups@, pieces),
            first_non_number(pieces, 0) == first_non_number(pieces, j as int),
            pieces == split_on(cut_of(s@, cut), ':'),
        decreases subgroups@.len() - j,
    {
        let sub = subgroups[j];
        let token = slice_subrange(group, sub.0, sub.1);
        if !float_chars(token) {
            let found = piece_text(s, cut.0, sub);
            assert(found@ =~= pieces[j as int]);
            return Err(GroupError::InvalidSubGroup { group: index, found });
        }
        j += 1;
    }
    if is_condition {
        if subgroups.len() != 2 {
            return Err(GroupError::TooManySubGroups(subgroups.len()));
        }
        let sub = subgroups[1];
        let token = slice_subrange(group, sub.0, sub.1);
        if !day_count_chars(token) {
            let found = piece_text(s, cut.0, sub);
            assert(found@ =~= pieces[1]);
            return Err(GroupError::InvalidDaysInCondition(found));
        }
    }
    Ok(())
}

/// Checks an amount field: groups divided by `;`, each made of numbers
/// divided by `:`. With `is_condition` set each group must be a payment
/// condition: a number and a day count.
pub fn group_control(s: &str, is_condition: bool) -> (r: Result<(), GroupError>)
    ensures
        match r {
            Ok(()) => groups_fault(s@, is_condition) is None,
            Err(e) => groups_fault(s@, is_condition) == Some(e@),
        },
{
    let chars = to_chars(s);
    let groups = split_ranges(chars.as_slice(), ';');
    let ghost pieces = split_on(s@, ';');
    let mut empty_g: usize = 0;
    let mut k: usize = 0;
    while k < groups.len()
        invariant
            k <= groups@.len(),
            cuts_mark(s@, groups@, pieces),
            empty_g == count_empty(pieces.take(k as int)),
            empty_g <= k,
        decreases groups@.len() - k,
    {
        assert(pieces.take(k + 1).drop_last() =~= pieces.take(k as int));
        if groups[k].0 == groups[k].1 {
            empty_g += 1;
        }
        k += 1;
    }
    assert(pieces.take(groups@.len() as int) =~= pieces);
    if empty_g > 0 {
        return Err(GroupError::MissingGroup { expected: groups.len(), found: empty_g });
    }
    let mut i: usize = 0;
    while i < groups.len()
        invariant
            i <= groups@.len(),
            chars@ == s@,
            pieces == split_on(s@, ';'),
            cuts_mark(s@, groups@, pieces),
            count_empty(pieces) == 0,
            first_group_fault(pieces, 0, is_condition) == first_group_fault(
                pieces,
                i as int,
                is_condition,
            ),
        decreases groups@.len() - i,
    {
        check_group(s, chars.as_slice(), groups[i], i, is_condition)?;
        i += 1;
    }
    Ok(())
}

/// `count_empty` counts something exactly where a piece is empty, and never
/// more than there are pieces.
pub proof fn lemma_count_empty(pieces: Seq<Seq<char>>)
    ensures
        count_empty(pieces) > 0 <==> has_empty(pieces),
        count_empty(pieces) <= pieces.len(),
    decreases pieces.len(),
{
    if pieces.len() > 0 {
        let before = pieces.drop_last();
        lemma_count_empty(before);
        if has_empty(pieces) {
            let k = choose|k: int| 0 <= k < pieces.len() && (#[trigger] pieces[k]).len() == 0;
            if k < before.len() {
                assert(before[k].len() == 0);
            }
        }
        if has_empty(before) {
            let k = choose|k: int| 0 <= k < before.len() && (#[trigger] before[k]).len() == 0;
            assert(pieces[k].len() == 0);
        }
    }
}

/// `first_non_number` stops at the first subgroup that is no number.
pub proof fn lemma_first_non_number(subgroups: Seq<Seq<char>>, from: int)
    requires
        0 <= from <= subgroups.len(),
    ensures
        from <= first_non_number(subgroups, from) <= subgroups.len(),
        forall|j: int|
            from <= j < first_non_number(subgroups, from) ==> is_float_text(
                #[trigger] subgroups[j],
            ),
        first_non_number(subgroups, from) < subgroups.len() ==> !is_float_text(
            subgroups[first_non_number(subgroups, from)],
        ),
    decreases subgroups.len() - from,
{
    if from < subgroups.len() && is_float_text(subgroups[from]) {
        lemma_first_non_number(subgroups, from + 1);
    }
}

/// A group is without fault exactly where it is well formed.
pub proof fn lemma_group_accepted(group: Seq<char>, index: nat, is_condition: bool)
    ensures
        group_fault(group, index, is_condition) is None <==> group_well_formed(
            group,
            is_condition,
        ),
{
    lemma_first_non_number(split_on(group, ':'), 0);
}

/// From `from` on no group has a fault exactly where each of them is well
/// formed.
pub proof fn lemma_first_group_fault(groups: Seq<Seq<char>>, from: int, is_condition: bool)
    requires
        0 <= from <= groups.len(),
    ensures
        first_group_fault(groups, from, is_condition) is None <==> forall|i: int|
            from <= i < groups.len() ==> group_well_formed(#[trigger] groups[i], is_condition),
    decreases groups.len() - from,
{
    if from < groups.len() {
        lemma_group_accepted(groups[from], from as nat, is_condition);
        lemma_first_group_fault(groups, from + 1, is_condition);
    }
}

/// An amount field is accepted exactly where none of its groups is empty and
/// all its subgroups are numbers, and where in addition, for payment
/// conditions, every group has two subgroups of which the second is a day
/// count.
pub proof fn lemma_groups_accepted(s: Seq<char>, is_condition: bool)
    ensures
        groups_fault(s, is_condition) is None <==> groups_well_formed(s, is_condition),
{
    let groups = split_on(s, ';');
    lemma_count_empty(groups);
    lemma_first_group_fault(groups, 0, is_condition);
    if groups_well_formed(s, is_condition) && has_empty(groups) {
        let k = choose|k: int| 0 <= k < groups.len() && (#[trigger] groups[k]).len() == 0;
        assert(groups[k].len() > 0);
    }
    if groups_fault(s, is_condition) is None {
        assert forall|i: int| 0 <= i < groups.len() implies (#[trigger] groups[i]).len() > 0 by {
            if groups[i].len() == 0 {
                assert(has_empty(groups));
            }
        }
    }
}

/// A fault of a single group is never that of a missing group, nor that of
/// a group without subgroups.
proof fn lemma_first_group_fault_kind(groups: Seq<Seq<char>>, from: int, is_condition: bool)
    requires
        0 <= from <= groups.len(),
    ensures
        !(first_group_fault(groups, from, is_condition) matches Some(
            SpecGroupError::MissingGroup { .. },
        )),
        !(first_group_fault(groups, from, is_condition) matches Some(
            SpecGroupError::EmptySubgroup(_),
        )),
    decreases groups.len() - from,
{
    if from < groups.len() {
        lemma_first_group_fault_kind(groups, from + 1, is_condition);
    }
}

/// No amount field is refused for a group without subgroups: a group that
/// holds nothing is a missing group, and any other has a subgroup.
pub proof fn lemma_no_empty_subgroup(s: Seq<char>, is_condition: bool)
    ensures
        !(groups_fault(s, is_condition) matches Some(SpecGroupError::EmptySubgroup(_))),
{
    lemma_first_group_fault_kind(split_on(s, ';'), 0, is_condition);
}

/// An amount field is refused for its missing groups exactly where it is
/// empty or has a `;` at its start, at its end or next to another `;`,
/// whatever else it holds. The fault tells how many groups there are and
/// how many of them are empty.
pub proof fn lemma_missing_group(s: Seq<char>, is_condition: bool)
    ensures
        has_stray_separator(s, ';') <==> (groups_fault(s, is_condition) matches Some(
            SpecGroupError::MissingGroup { .. },
        )),
        has_stray_separator(s, ';') ==> groups_fault(s, is_condition) == Some(
            SpecGroupError::MissingGroup {
                expected: split_on(s, ';').len(),
                found: count_empty(split_on(s, ';')),
            },
        ) && 1 <= count_empty(split_on(s, ';')) <= split_on(s, ';').len(),
{
    lemma_separator_leaves_empty_piece(s, ';');
    lemma_count_empty(split_on(s, ';'));
    lemma_first_group_fault_kind(split_on(s, ';'), 0, is_condition);
}

} // verus!
