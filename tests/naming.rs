use padbox::{generate_project_name, project_name, Timestamp};

fn ts(year: i32, offset_seconds: i32) -> Timestamp {
    Timestamp { year, month: 1, day: 2, hour: 3, minute: 4, second: 5, offset_seconds }
}

#[test]
fn name_has_timestamp_recipe_and_hex_suffix() {
    let name = project_name(&ts(2024, 9 * 3600), "rust", 0xABCDEF12);
    assert_eq!(name, "20240102-030405-+0900-rust-cdef12");
}

#[test]
fn name_with_negative_offset_and_small_suffix() {
    let name = project_name(&ts(2024, -5 * 3600 - 30 * 60), "go", 0x2a);
    assert_eq!(name, "20240102-030405--0530-go-00002a");
}

#[test]
fn offset_rounds_to_nearest_minute() {
    assert_eq!(project_name(&ts(2024, 90), "x", 0), "20240102-030405-+0002-x-000000");
    assert_eq!(project_name(&ts(2024, 0), "x", 0xffffff), "20240102-030405-+0000-x-ffffff");
}

#[test]
fn years_outside_four_digits_carry_a_sign() {
    assert_eq!(project_name(&ts(12345, 0), "x", 1), "+123450102-030405-+0000-x-000001");
    assert_eq!(project_name(&ts(-7, 0), "x", 1), "-00070102-030405-+0000-x-000001");
    assert_eq!(project_name(&ts(7, 0), "x", 1), "00070102-030405-+0000-x-000001");
}

#[test]
fn generated_name_has_expected_shape() {
    let name = generate_project_name("rust");
    // read from the end: a negative offset adds a second '-'
    let (rest, suffix) = name.rsplit_once('-').expect("suffix");
    assert_eq!(suffix.len(), 6);
    assert!(suffix.chars().all(|c| c.is_ascii_hexdigit() && !c.is_ascii_uppercase()));
    let rest = rest.strip_suffix("-rust").expect("recipe name");
    let (stamp, offset) = rest.split_at(rest.len() - 5);
    assert!(offset.starts_with('+') || offset.starts_with('-'), "{name}");
    assert!(offset[1..].chars().all(|c| c.is_ascii_digit()));
    let stamp = stamp.strip_suffix('-').expect("offset separator");
    let (date, time) = stamp.split_once('-').expect("date and time");
    assert_eq!(date.len(), 8);
    assert_eq!(time.len(), 6);
    assert!(date.chars().chain(time.chars()).all(|c| c.is_ascii_digit()));
}

#[test]
fn many_names_in_one_second_are_distinct_in_practice() {
    let mut names: Vec<String> = (0..1000).map(|_| generate_project_name("rust")).collect();
    names.sort();
    names.dedup();
    assert!(names.len() >= 999);
}
