use bareeye::camera::relative_ptz::{
    can_get, can_set, find_source, ControlProperty, MembersHeader, SupportLine, SupportReader,
    SUPPORT_BUFFER_SIZE,
};

fn words(words: &[u32]) -> Vec<u8> {
    words.iter().flat_map(|word| word.to_le_bytes()).collect()
}

fn description(lists: u32) -> Vec<u8> {
    words(&[3, 77, 0, 0, 0, 0, 0, 0, lists, 0])
}

fn report(bytes: &[u8]) -> Vec<String> {
    report_of(bytes, bytes.len() as u32)
}

fn report_of(bytes: &[u8], returned: u32) -> Vec<String> {
    let mut buffer = bytes.to_vec();
    buffer.resize(SUPPORT_BUFFER_SIZE, 0xEE);
    let mut reader = SupportReader::new(&buffer, returned);
    let mut lines = Vec::new();
    while let Some(line) = reader.next_line() {
        lines.push(format!("{:?}", line));
    }
    lines
}

fn said(lines: Vec<SupportLine>) -> Vec<String> {
    lines.iter().map(|line| format!("{:?}", line)).collect()
}

fn head(returned: u32, lists: u32) -> Vec<SupportLine> {
    vec![
        SupportLine::BytesReturned(returned),
        SupportLine::AccessMask(3),
        SupportLine::DescriptionSize(77),
        SupportLine::MemberLists(lists),
    ]
}

fn header(members_flags: u32, members_size: u32, members_count: u32) -> MembersHeader {
    MembersHeader { members_flags, members_size, members_count, flags: 9 }
}

#[test]
fn a_short_answer_holds_no_description() {
    assert_eq!(
        report_of(&[1, 2, 3, 4], 4),
        said(vec![SupportLine::BytesReturned(4), SupportLine::NoDescription])
    );
    assert_eq!(
        report_of(&description(1), 39),
        said(vec![SupportLine::BytesReturned(39), SupportLine::NoDescription])
    );
}

#[test]
fn stepped_ranges_are_read() {
    let mut bytes = description(1);
    bytes.extend(words(&[2, 16, 2, 9]));
    bytes.extend(words(&[5, 0, (-24_i32) as u32, 24]));
    bytes.extend(words(&[1, 0, (-20_i32) as u32, 20]));
    let mut expected = head(88, 1);
    expected.push(SupportLine::List { list: 0, header: header(2, 16, 2) });
    expected.push(SupportLine::SteppedRange { member: 0, minimum: -24, maximum: 24, step: 5 });
    expected.push(SupportLine::SteppedRange { member: 1, minimum: -20, maximum: 20, step: 1 });
    assert_eq!(report(&bytes), said(expected));
}

#[test]
fn ranges_show_their_words_and_their_meaning() {
    let mut bytes = description(3);
    bytes.extend(words(&[1, 16, 1, 9]));
    bytes.extend(words(&[4, 6, (-1_i32) as u32, 2]));
    bytes.extend(words(&[1, 8, 1, 9]));
    bytes.extend(words(&[i32::MIN as u32, i32::MAX as u32]));
    bytes.extend(words(&[1, 4, 1, 9]));
    bytes.extend(words(&[7]));
    let mut expected = head(bytes.len() as u32, 3);
    expected.push(SupportLine::List { list: 0, header: header(1, 16, 1) });
    expected.push(SupportLine::Words(vec![4, 6, -1, 2]));
    expected.push(SupportLine::SteppingLayout { minimum: -1, maximum: 2, step: 4, reserved: 6 });
    expected.push(SupportLine::List { list: 1, header: header(1, 8, 1) });
    expected.push(SupportLine::Words(vec![i32::MIN, i32::MAX]));
    expected.push(SupportLine::Range { member: 0, minimum: i32::MIN, maximum: i32::MAX });
    expected.push(SupportLine::List { list: 2, header: header(1, 4, 1) });
    expected.push(SupportLine::Words(vec![7]));
    expected.push(SupportLine::UnexpectedSize { member: 0, size: 4 });
    assert_eq!(report(&bytes), said(expected));
}

#[test]
fn values_and_unknown_members_are_read() {
    let mut bytes = description(3);
    bytes.extend(words(&[77, 4, 2, 9]));
    bytes.extend(words(&[0, 0]));
    bytes.extend(words(&[3, 4, 2, 9]));
    bytes.extend(words(&[(-5_i32) as u32, 6]));
    bytes.extend(words(&[3, 4, 0, 9]));
    let mut expected = head(bytes.len() as u32, 3);
    expected.push(SupportLine::List { list: 0, header: header(77, 4, 2) });
    expected.push(SupportLine::UnknownMembers(77));
    expected.push(SupportLine::List { list: 1, header: header(3, 4, 2) });
    expected.push(SupportLine::Value { member: 0, value: -5 });
    expected.push(SupportLine::Value { member: 1, value: 6 });
    expected.push(SupportLine::List { list: 2, header: header(3, 4, 0) });
    assert_eq!(report(&bytes), said(expected));
}

#[test]
fn what_is_cut_off_is_said_to_be() {
    let last = |bytes: &[u8]| report(bytes).last().unwrap().clone();
    assert_eq!(last(&description(1)), format!("{:?}", SupportLine::TruncatedHeader { list: 0 }));
    let with = |header: &[u32], rest: usize| {
        let mut bytes = description(1);
        bytes.extend(words(header));
        bytes.extend(vec![0; rest]);
        bytes
    };
    assert_eq!(
        last(&with(&[2, 16, 1, 9], 15)),
        format!("{:?}", SupportLine::TruncatedSteppedRange { member: 0 })
    );
    assert_eq!(
        last(&with(&[1, 8, 2, 9], 15)),
        format!("{:?}", SupportLine::TruncatedRange { member: 1 })
    );
    assert_eq!(
        last(&with(&[1, u32::MAX, 1, 9], 8)),
        format!("{:?}", SupportLine::TruncatedRange { member: 0 })
    );
    assert_eq!(
        last(&with(&[3, 4, 2, 9], 7)),
        format!("{:?}", SupportLine::TruncatedValue { member: 1 })
    );
    let mut huge = description(2);
    huge.extend(words(&[9, u32::MAX, u32::MAX, 9]));
    assert_eq!(last(&huge), format!("{:?}", SupportLine::TruncatedHeader { list: 1 }));
}

#[test]
fn members_without_size_are_read_in_place() {
    let mut bytes = description(1);
    bytes.extend(words(&[3, 0, 3, 9]));
    bytes.extend(words(&[42]));
    let lines = report(&bytes);
    assert_eq!(lines[5], format!("{:?}", SupportLine::Value { member: 0, value: 42 }));
    assert_eq!(lines[7], format!("{:?}", SupportLine::Value { member: 2, value: 42 }));
    assert_eq!(lines.len(), 8);
}

#[test]
fn no_more_is_read_than_the_buffer_holds() {
    let mut bytes = description(0);
    bytes.resize(SUPPORT_BUFFER_SIZE, 0);
    let lines = report_of(&bytes, 5000);
    assert_eq!(lines, said(head(5000, 0)));
}

#[test]
fn access_masks_tell_reading_from_writing() {
    for mask in [0_u32, 1, 2, 3, 0x201, 0xFFFF_FFFC, u32::MAX] {
        assert_eq!(can_get(mask), mask & 1 != 0);
        assert_eq!(can_set(mask), mask & 2 != 0);
    }
}

#[test]
fn properties_have_names_and_numbers() {
    let listed: Vec<(&str, u32)> = [
        ControlProperty::Pan,
        ControlProperty::Tilt,
        ControlProperty::PanTilt,
        ControlProperty::PanRelative,
        ControlProperty::TiltRelative,
        ControlProperty::PanTiltRelative,
    ]
    .iter()
    .map(|property| (property.name(), property.id()))
    .collect();
    assert_eq!(
        listed,
        vec![
            ("PAN", 0),
            ("TILT", 1),
            ("PANTILT", 9),
            ("PAN_RELATIVE", 10),
            ("TILT_RELATIVE", 11),
            ("PANTILT_RELATIVE", 17),
        ]
    );
}

#[test]
fn the_first_source_with_the_link_is_found() {
    let links = vec![None, Some("a".to_owned()), Some("b".to_owned()), Some("b".to_owned())];
    assert_eq!(find_source(&links, &"b".to_owned()), Some(2));
    assert_eq!(find_source(&links, &"c".to_owned()), None);
}
