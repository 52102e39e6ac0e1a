use mpxrust::field_map::{
    fixed_field_size, resource, task, FieldLocation, FieldMap, RESOURCE_FIELD_BASE,
    TASK_FIELD_BASE,
};

/// A 28-byte field map entry.
fn entry(fixed_offset: u16, type_value: i32, category: u16) -> Vec<u8> {
    let mut e = vec![0u8; 28];
    e[4..6].copy_from_slice(&fixed_offset.to_le_bytes());
    e[12..16].copy_from_slice(&type_value.to_le_bytes());
    e[20..22].copy_from_slice(&category.to_le_bytes());
    e
}

#[test]
fn parses_fixed_var_and_meta_locations() {
    let mut d = Vec::new();
    d.extend(entry(0, TASK_FIELD_BASE | task::UNIQUE_ID as i32, 0x03));
    d.extend(entry(65535, TASK_FIELD_BASE | task::NAME as i32, 0x08));
    d.extend(entry(0, TASK_FIELD_BASE | 24, 0x0B));
    let fm = FieldMap::parse(&d, TASK_FIELD_BASE);
    assert_eq!(fm.fixed_offset(task::UNIQUE_ID), Some((0, 0)));
    assert_eq!(fm.var_key(task::NAME), Some(task::NAME));
    assert_eq!(fm.location(24), FieldLocation::MetaData);
    assert_eq!(fm.location(9999), FieldLocation::Unknown);
}

#[test]
fn block_index_advances_when_offsets_rewind() {
    let mut d = Vec::new();
    d.extend(entry(0, TASK_FIELD_BASE | task::UNIQUE_ID as i32, 0x03));
    d.extend(entry(120, TASK_FIELD_BASE | task::SCHEDULED_START as i32, 0x13));
    d.extend(entry(8, TASK_FIELD_BASE | task::ID as i32, 0x03));
    let fm = FieldMap::parse(&d, TASK_FIELD_BASE);
    assert_eq!(fm.fixed_offset(task::UNIQUE_ID), Some((0, 0)));
    assert_eq!(fm.fixed_offset(task::SCHEDULED_START), Some((0, 120)));
    assert_eq!(fm.fixed_offset(task::ID), Some((1, 8)));
    assert_eq!(fm.max_fixed_data_size(0), 124);
}

#[test]
fn ignores_entries_from_other_entities() {
    let d = entry(0, RESOURCE_FIELD_BASE | 1, 0x08);
    let fm = FieldMap::parse(&d, TASK_FIELD_BASE);
    assert!(fm.is_empty());
}

#[test]
fn field_map_sizes_and_lookups() {
    let mut d = Vec::new();
    d.extend(entry(10, TASK_FIELD_BASE | task::WORK as i32, 0x03));
    d.extend(entry(2, TASK_FIELD_BASE | task::ID as i32, 0x03));
    d.extend(entry(65535, TASK_FIELD_BASE | task::NOTES as i32, 0x08));
    d.extend(vec![1, 2, 3]);
    let fm = FieldMap::parse(&d, TASK_FIELD_BASE);
    assert!(!fm.is_empty());
    assert_eq!(fm.max_fixed_data_size(0), 18);
    assert_eq!(fm.max_fixed_data_size(1), 6);
    assert_eq!(fm.location(task::WORK), FieldLocation::FixedData { block: 0, offset: 10 });
    assert_eq!(fm.var_key(task::WORK), None);
    assert_eq!(fm.fixed_offset(task::NOTES), None);
    assert_eq!(fm.var_key(task::NOTES), Some(task::NOTES));
    assert_eq!(fm.var_key(resource::NAME), None);
}

#[test]
fn fixed_field_sizes() {
    assert_eq!(fixed_field_size(task::WORK), 8);
    assert_eq!(fixed_field_size(task::COST), 8);
    assert_eq!(fixed_field_size(task::START), 4);
    assert_eq!(fixed_field_size(task::UNIQUE_ID), 4);
    assert_eq!(fixed_field_size(task::PERCENT_COMPLETE), 2);
}

#[test]
fn later_entry_for_a_field_wins() {
    let mut d = Vec::new();
    d.extend(entry(12, TASK_FIELD_BASE | task::ID as i32, 0x03));
    d.extend(entry(65535, TASK_FIELD_BASE | task::ID as i32, 0x08));
    d.extend(entry(4, TASK_FIELD_BASE | task::NAME as i32, 0x03));
    d.extend(entry(0, TASK_FIELD_BASE | task::NAME as i32, 0x0B));
    let fm = FieldMap::parse(&d, TASK_FIELD_BASE);
    assert_eq!(fm.location(task::ID), FieldLocation::VarData { key: task::ID });
    assert_eq!(fm.location(task::NAME), FieldLocation::MetaData);
    assert_eq!(fm.max_fixed_data_size(0), 16);
    assert_eq!(fm.max_fixed_data_size(1), 6);
    assert_eq!(fm.max_fixed_data_size(2), 0);
}
