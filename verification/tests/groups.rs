use qrbill::billing_infos::swico::syntax::{group_control, GroupError};
use qrbill::billing_infos::swico::text::{split_ranges, to_chars};

fn pieces(s: &str, sep: char) -> Vec<String> {
    let chars = to_chars(s);
    split_ranges(&chars, sep).into_iter().map(|(a, b)| chars[a..b].iter().collect()).collect()
}

#[test]
fn split_agrees_with_std() {
    for s in ["", ";", ";;", "a", "a;b", ";a", "a;", "a;;b", "10.5:20.3;5.0:1.2", "é;ü;", ";;;"] {
        let expected: Vec<String> = s.split(';').map(|p| p.to_string()).collect();
        assert_eq!(pieces(s, ';'), expected, "text {:?}", s);
    }
}

#[test]
fn split_marks_each_piece() {
    let chars = to_chars("ab;c;");
    assert_eq!(split_ranges(&chars, ';'), vec![(0, 2), (3, 4), (5, 5)]);
}

#[test]
fn groups_without_conditions() {
    assert_eq!(group_control("10.5:20.3;5.0:1.2", false), Ok(()));
    assert_eq!(group_control("7.7", false), Ok(()));
    assert_eq!(group_control("8:1000;2.5:51.8;3", false), Ok(()));
}

#[test]
fn groups_as_conditions() {
    assert_eq!(
        group_control("10.5:20.3;5.0:1.2", true),
        Err(GroupError::InvalidDaysInCondition("20.3".to_string()))
    );
    assert_eq!(group_control("2.0:30", true), Ok(()));
    assert_eq!(group_control("3:15;0.5:45;0:90", true), Ok(()));
    assert_eq!(group_control("3:0;0:255", true), Ok(()));
    assert_eq!(
        group_control("3:15;0:256", true),
        Err(GroupError::InvalidDaysInCondition("256".to_string()))
    );
    assert_eq!(
        group_control("3:15;1:-5", true),
        Err(GroupError::InvalidDaysInCondition("-5".to_string()))
    );
}

#[test]
fn conditions_need_two_subgroups() {
    assert_eq!(group_control("2.0", true), Err(GroupError::TooManySubGroups(1)));
    assert_eq!(group_control("2.0:30:1", true), Err(GroupError::TooManySubGroups(3)));
    assert_eq!(group_control("2.0:30;5", true), Err(GroupError::TooManySubGroups(1)));
}

#[test]
fn empty_groups_are_missing() {
    assert_eq!(
        group_control(";5.0", false),
        Err(GroupError::MissingGroup { expected: 2, found: 1 })
    );
    assert_eq!(
        group_control("5.0;", false),
        Err(GroupError::MissingGroup { expected: 2, found: 1 })
    );
    assert_eq!(
        group_control("1;;2", true),
        Err(GroupError::MissingGroup { expected: 3, found: 1 })
    );
    assert_eq!(
        group_control(";;", false),
        Err(GroupError::MissingGroup { expected: 3, found: 3 })
    );
    assert_eq!(group_control("", false), Err(GroupError::MissingGroup { expected: 1, found: 1 }));
}

#[test]
fn empty_groups_come_before_other_faults() {
    assert_eq!(
        group_control("x;;2", false),
        Err(GroupError::MissingGroup { expected: 3, found: 1 })
    );
}

#[test]
fn subgroups_must_be_numbers() {
    assert_eq!(
        group_control("1:x", false),
        Err(GroupError::InvalidSubGroup { group: 0, found: "x".to_string() })
    );
    assert_eq!(
        group_control("1:2;3:4;é5:6", false),
        Err(GroupError::InvalidSubGroup { group: 2, found: "é5".to_string() })
    );
    assert_eq!(
        group_control("1:", false),
        Err(GroupError::InvalidSubGroup { group: 0, found: String::new() })
    );
    assert_eq!(
        group_control("1:2;a:b", true),
        Err(GroupError::InvalidSubGroup { group: 1, found: "a".to_string() })
    );
}

#[test]
fn number_fault_comes_before_subgroup_count() {
    assert_eq!(
        group_control("1:2:x", true),
        Err(GroupError::InvalidSubGroup { group: 0, found: "x".to_string() })
    );
}
