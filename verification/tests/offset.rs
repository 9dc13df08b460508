use lunisolar::tzif::{resolve_offset, TzError};

/// Builds a two-block TZif table: an empty legacy block and a 64-bit block
/// holding the given transitions, their type indices, and the given
/// local-time-type offsets.
fn make_table(transitions: &[i64], type_indices: &[u8], offsets: &[i32]) -> Vec<u8> {
    assert_eq!(transitions.len(), type_indices.len());
    let mut t = Vec::new();
    // legacy block: header with all six counts zero, empty body
    t.extend_from_slice(b"TZif2");
    t.extend_from_slice(&[0u8; 15]);
    t.extend_from_slice(&[0u8; 24]);
    // 64-bit block header
    t.extend_from_slice(b"TZif2");
    t.extend_from_slice(&[0u8; 15]);
    t.extend_from_slice(&0u32.to_be_bytes()); // isutccnt
    t.extend_from_slice(&0u32.to_be_bytes()); // isstdcnt
    t.extend_from_slice(&0u32.to_be_bytes()); // leapcnt
    t.extend_from_slice(&(transitions.len() as u32).to_be_bytes()); // timecnt
    t.extend_from_slice(&(offsets.len() as u32).to_be_bytes()); // typecnt
    t.extend_from_slice(&0u32.to_be_bytes()); // charcnt
    for ts in transitions {
        t.extend_from_slice(&ts.to_be_bytes());
    }
    t.extend_from_slice(type_indices);
    for off in offsets {
        t.extend_from_slice(&off.to_be_bytes());
        t.push(0); // DST flag, unread
        t.push(0); // abbreviation index, unread
    }
    t
}

/// A table shaped like America/Los_Angeles around the 2020 spring-forward
/// boundary: standard time (UTC-8) from 2019-11-03, daylight time (UTC-7)
/// from 2020-03-08 10:00 UTC.
fn la_table() -> Vec<u8> {
    make_table(
        &[1572760800, 1583661600],
        &[0, 1],
        &[-28800, -25200],
    )
}

#[test]
fn test() {
    let table = la_table();
    assert_eq!(resolve_offset(1583661599, &table), Ok(-28800));
    assert_eq!(resolve_offset(1583661600, &table), Ok(-25200));
    assert_eq!(resolve_offset(1583661601, &table), Ok(-25200));
}

#[test]
fn instant_equal_to_first_transition() {
    let table = la_table();
    assert_eq!(resolve_offset(1572760800, &table), Ok(-28800));
}

#[test]
fn instant_after_last_transition_uses_last_offset() {
    let table = la_table();
    assert_eq!(resolve_offset(2000000000, &table), Ok(-25200));
}

#[test]
fn instant_before_first_transition_is_rejected() {
    let table = la_table();
    assert_eq!(
        resolve_offset(1572760799, &table),
        Err(TzError::BeforeFirstTransition)
    );
}

#[test]
fn adjacent_instants_differ_only_at_a_boundary() {
    let table = la_table();
    for t in [1572760801i64, 1580000000, 1583661599, 1583661601, 1600000000] {
        assert_eq!(resolve_offset(t, &table), resolve_offset(t - 1, &table));
    }
    assert_ne!(
        resolve_offset(1583661600, &table),
        resolve_offset(1583661599, &table)
    );
}

#[test]
fn positive_offsets_are_read_signed() {
    let table = make_table(&[0, 100], &[1, 0], &[3600, 45000]);
    assert_eq!(resolve_offset(50, &table), Ok(45000));
    assert_eq!(resolve_offset(100, &table), Ok(3600));
}

#[test]
fn negative_transition_timestamps_are_read_signed() {
    let table = make_table(&[-2717640000, -1633269600], &[0, 1], &[-28800, -25200]);
    assert_eq!(resolve_offset(-1633269601, &table), Ok(-28800));
    assert_eq!(resolve_offset(-1633269600, &table), Ok(-25200));
}

#[test]
fn empty_buffer_is_malformed() {
    assert_eq!(resolve_offset(0, &Vec::new()), Err(TzError::Malformed));
}

#[test]
fn bad_magic_is_malformed() {
    let mut table = la_table();
    table[0] = b'X';
    assert_eq!(resolve_offset(1583661601, &table), Err(TzError::Malformed));
}

#[test]
fn bad_version_is_malformed() {
    let mut table = la_table();
    table[4] = b'1';
    assert_eq!(resolve_offset(1583661601, &table), Err(TzError::Malformed));
}

#[test]
fn bad_second_block_magic_is_malformed() {
    let mut table = la_table();
    table[44] = b'X';
    assert_eq!(resolve_offset(1583661601, &table), Err(TzError::Malformed));
}

#[test]
fn truncated_table_is_malformed() {
    let mut table = la_table();
    table.truncate(table.len() - 1);
    assert_eq!(resolve_offset(1583661601, &table), Err(TzError::Malformed));
}

#[test]
fn no_transitions_is_malformed() {
    let table = make_table(&[], &[], &[-28800]);
    assert_eq!(resolve_offset(0, &table), Err(TzError::Malformed));
}

#[test]
fn unsorted_transitions_are_malformed() {
    let table = make_table(&[1583661600, 1572760800], &[0, 1], &[-28800, -25200]);
    assert_eq!(resolve_offset(1583661601, &table), Err(TzError::Malformed));
}

#[test]
fn duplicate_transitions_are_malformed() {
    let table = make_table(&[1572760800, 1572760800], &[0, 1], &[-28800, -25200]);
    assert_eq!(resolve_offset(1583661601, &table), Err(TzError::Malformed));
}

#[test]
fn type_index_past_type_table_is_malformed() {
    let table = make_table(&[1572760800, 1583661600], &[0, 2], &[-28800, -25200]);
    assert_eq!(resolve_offset(1583661601, &table), Err(TzError::Malformed));
}
