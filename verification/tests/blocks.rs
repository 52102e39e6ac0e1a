use mpxrust::blocks::var_meta::BLOCK_MAGIC;
use mpxrust::blocks::{FixedData, FixedMeta, Props, Var2Data, VarMeta};
use mpxrust::MppError;

/// FixedMeta of 8-byte items whose data offsets are `offsets`.
fn fixed_meta_of(offsets: &[i32]) -> FixedMeta {
    let mut d = Vec::new();
    d.extend(BLOCK_MAGIC.to_le_bytes());
    d.extend(0u32.to_le_bytes());
    d.extend((offsets.len() as u32).to_le_bytes());
    d.extend(0u32.to_le_bytes());
    for &o in offsets {
        d.extend(0u32.to_le_bytes());
        d.extend(o.to_le_bytes());
    }
    FixedMeta::parse(&d, 8, "test").unwrap()
}

#[test]
fn item_size_is_distance_to_next_offset() {
    let m = fixed_meta_of(&[0, 4, 10]);
    let data: Vec<u8> = (0..14).collect();
    let fd = FixedData::parse(&m, &data, 0);
    assert_eq!(fd.item(0), Some(&data[0..4]));
    assert_eq!(fd.item(1), Some(&data[4..10]));
    assert_eq!(fd.item(2), Some(&data[10..14]));
}

#[test]
fn out_of_range_offset_leaves_none() {
    let m = fixed_meta_of(&[0, 100]);
    let data = [0u8; 10];
    let fd = FixedData::parse(&m, &data, 0);
    assert!(fd.item(0).is_some());
    assert!(fd.item(1).is_none());
    assert_eq!(fd.iter().len(), 1);
}

#[test]
fn max_expected_size_clamps_items() {
    let m = fixed_meta_of(&[0]);
    let data = [7u8; 50];
    let fd = FixedData::parse(&m, &data, 16);
    assert_eq!(fd.item(0).unwrap().len(), 16);
}

#[test]
fn negative_size_from_unsorted_offsets_falls_back() {
    let m = fixed_meta_of(&[10, 0]);
    let data: Vec<u8> = (0..20).collect();
    let fd = FixedData::parse(&m, &data, 4);
    assert_eq!(fd.item(0).unwrap(), &data[10..14]);
    assert_eq!(fd.item(1).unwrap(), &data[0..4]);
}

#[test]
fn fixed_data_iter_lists_readable_items_with_index() {
    let m = fixed_meta_of(&[0, 100, 4]);
    let data: Vec<u8> = (0..8).collect();
    let fd = FixedData::parse(&m, &data, 0);
    let items = fd.iter();
    assert_eq!(items.len(), 2);
    assert_eq!(items[0].0, 0);
    assert_eq!(items[1].0, 2);
    assert_eq!(items[1].1, &data[4..8]);
    assert_eq!(fd.item_count(), 3);
}

#[test]
fn parse_with_item_size_uses_fixed_size_at_meta_offsets() {
    let m = fixed_meta_of(&[0, 6, 30]);
    let data: Vec<u8> = (0..12).collect();
    let fd = FixedData::parse_with_item_size(&m, &data, 4);
    assert_eq!(fd.item(0), Some(&data[0..4]));
    assert_eq!(fd.item(1), Some(&data[6..10]));
    assert_eq!(fd.item(2), None);
}

#[test]
fn parse_sequential_cuts_consecutive_items() {
    let data: Vec<u8> = (0..11).collect();
    let fd = FixedData::parse_sequential(&data, 5);
    assert_eq!(fd.item_count(), 2);
    assert_eq!(fd.item(0), Some(&data[0..5]));
    assert_eq!(fd.item(1), Some(&data[5..10]));
    assert_eq!(fd.item(2), None);
}

fn fixed_block(item_count: u32, items: &[&[u8]]) -> Vec<u8> {
    let mut d = Vec::new();
    d.extend(BLOCK_MAGIC.to_le_bytes());
    d.extend(0u32.to_le_bytes());
    d.extend(item_count.to_le_bytes());
    d.extend(0u32.to_le_bytes());
    for i in items {
        d.extend_from_slice(i);
    }
    d
}

#[test]
fn fixed_item_size_uses_stream_length_not_header_count() {
    let item = [0u8; 8];
    let d = fixed_block(1, &[&item, &item, &item]);
    let fm = FixedMeta::parse(&d, 8, "test").unwrap();
    assert_eq!(fm.item_count(), 3);
}

#[test]
fn data_offset_reads_bytes_4_to_8() {
    let mut item = [0u8; 8];
    item[4..8].copy_from_slice(&123i32.to_le_bytes());
    let d = fixed_block(1, &[&item]);
    let fm = FixedMeta::parse(&d, 8, "test").unwrap();
    assert_eq!(fm.data_offset(0), Some(123));
}

#[test]
fn candidate_sizes_prefers_match_with_sibling_block() {
    let d = fixed_block(2, &[&[0u8; 24]]);
    let fm = FixedMeta::parse_with_candidate_sizes(&d, 2, &[8, 12], "test").unwrap();
    assert_eq!(fm.item_count(), 2);
}

#[test]
fn fixed_meta_rejects_bad_magic() {
    let mut d = fixed_block(0, &[]);
    d[0] = 0x00;
    assert!(FixedMeta::parse(&d, 8, "test").is_err());
}

#[test]
fn fixed_meta_errors_name_context_and_cause() {
    match FixedMeta::parse(&[1, 2], 8, "TBkndTask") {
        Err(MppError::Corrupt { context, detail }) => {
            assert_eq!(context, "TBkndTask");
            assert_eq!(detail, "FixedMeta más corto que el header");
        }
        other => panic!("unexpected {other:?}"),
    }
    let mut d = fixed_block(0, &[]);
    d[0] = 0x00;
    assert!(matches!(
        FixedMeta::parse(&d, 8, "x"),
        Err(MppError::Corrupt { .. })
    ));
}

fn props_block(entries: &[(i32, &[u8])]) -> Vec<u8> {
    let mut d = vec![0u8; 16];
    d[12..14].copy_from_slice(&(entries.len() as u16).to_le_bytes());
    for &(key, content) in entries {
        d.extend((content.len() as i32).to_le_bytes());
        d.extend(key.to_le_bytes());
        d.extend(0i32.to_le_bytes());
        d.extend(content);
        if content.len() % 2 != 0 {
            d.push(0);
        }
    }
    d
}

#[test]
fn parses_typed_entries_with_odd_alignment() {
    let name: Vec<u8> = "Plan".encode_utf16().flat_map(u16::to_le_bytes).collect();
    let d = props_block(&[(10, &[0x07]), (20, &8.5f64.to_le_bytes()), (30, &name)]);
    let p = Props::parse(&d, "test").unwrap();
    assert_eq!(p.len(), 3);
    assert_eq!(p.byte_array(10), Some(&[0x07][..]));
    assert_eq!(p.get_u64(20).map(f64::from_bits), Some(8.5));
    assert_eq!(p.get_unicode_string(30).as_deref(), Some("Plan"));
    assert_eq!(p.get_i32(99), None);
}

#[test]
fn stops_at_corrupt_size_without_error() {
    let mut d = props_block(&[(10, &[0x01, 0x02])]);
    d[12..14].copy_from_slice(&2u16.to_le_bytes());
    d.extend((9999i32).to_le_bytes());
    d.extend(20i32.to_le_bytes());
    d.extend(0i32.to_le_bytes());
    let p = Props::parse(&d, "test").unwrap();
    assert_eq!(p.len(), 1);
}

#[test]
fn props_typed_getters_and_keys() {
    let d = props_block(&[
        (5, &(-7i32).to_le_bytes()),
        (3, &[0x00, 0x00]),
        (9, &[0x02, 0x00]),
    ]);
    let p = Props::parse(&d, "test").unwrap();
    assert_eq!(p.get_i32(5), Some(-7));
    assert_eq!(p.get_u16(9), Some(2));
    assert_eq!(p.get_bool(3), Some(false));
    assert_eq!(p.get_bool(9), Some(true));
    assert_eq!(p.get_bool(4), None);
    assert_eq!(p.keys(), vec![3, 5, 9]);
    assert!(!p.is_empty());
}

#[test]
fn props_shorter_than_header_is_corrupt() {
    match Props::parse(&[0u8; 15], "Props") {
        Err(MppError::Corrupt { context, detail }) => {
            assert_eq!(context, "Props");
            assert_eq!(detail, "Props más corto que el header");
        }
        other => panic!("unexpected {other:?}"),
    }
    let empty = Props::parse(&[0u8; 16], "Props").unwrap();
    assert!(empty.is_empty());
}

/// VarMeta with entries `(uid, offset, type)`.
fn var_meta_of(entries: &[(u32, u32, u16)]) -> VarMeta {
    let mut d = Vec::new();
    d.extend(BLOCK_MAGIC.to_le_bytes());
    d.extend(0u32.to_le_bytes());
    d.extend((entries.len() as u32).to_le_bytes());
    d.extend([0u8; 12]);
    for &(uid, off, typ) in entries {
        d.extend(uid.to_le_bytes());
        d.extend(off.to_le_bytes());
        d.extend(typ.to_le_bytes());
        d.extend(0u16.to_le_bytes());
    }
    VarMeta::parse(&d, "test").unwrap()
}

fn sized(content: &[u8]) -> Vec<u8> {
    let mut v = (content.len() as i32).to_le_bytes().to_vec();
    v.extend(content);
    v
}

#[test]
fn reads_items_at_offsets() {
    let m = var_meta_of(&[(1, 0, 14), (2, 10, 14)]);
    let name: Vec<u8> = "Hola".encode_utf16().flat_map(u16::to_le_bytes).collect();
    let mut data = sized(&name);
    data.truncate(10);
    data.resize(10, 0);
    data.extend(sized(&name));
    let v = Var2Data::parse(&m, &data);
    assert_eq!(v.unicode_string(&m, 2, 14).as_deref(), Some("Hola"));
}

#[test]
fn skips_corrupt_sizes_and_out_of_range_offsets() {
    let m = var_meta_of(&[(1, 0, 14), (2, 500, 14)]);
    let data = (-5i32).to_le_bytes().to_vec();
    let v = Var2Data::parse(&m, &data);
    assert_eq!(v.item_count(), 0);
    assert!(v.byte_array(&m, 1, 14).is_none());
    assert!(v.byte_array(&m, 2, 14).is_none());
}

#[test]
fn var2_data_byte_array_follows_the_meta_offset() {
    let m = var_meta_of(&[(4, 0, 1), (4, 7, 2)]);
    let mut data = sized(&[9, 8, 7]);
    data.extend(sized(&[1, 2]));
    let v = Var2Data::parse(&m, &data);
    assert_eq!(v.item_count(), 2);
    assert_eq!(v.byte_array(&m, 4, 1), Some(&[9u8, 8, 7][..]));
    assert_eq!(v.byte_array(&m, 4, 2), Some(&[1u8, 2][..]));
    assert_eq!(v.byte_array(&m, 4, 3), None);
    assert_eq!(v.byte_array(&m, 5, 1), None);
}

fn var_header(item_count: u32, magic: u32) -> Vec<u8> {
    let mut h = Vec::new();
    h.extend(magic.to_le_bytes());
    h.extend(0u32.to_le_bytes());
    h.extend(item_count.to_le_bytes());
    h.extend([0u8; 12]);
    h
}

fn var_entry(uid: u32, offset: u32, typ: u16) -> Vec<u8> {
    let mut e = Vec::new();
    e.extend(uid.to_le_bytes());
    e.extend(offset.to_le_bytes());
    e.extend(typ.to_le_bytes());
    e.extend(0u16.to_le_bytes());
    e
}

#[test]
fn parses_entries_grouped_by_uid() {
    let mut d = var_header(3, BLOCK_MAGIC);
    d.extend(var_entry(7, 100, 14));
    d.extend(var_entry(7, 40, 6));
    d.extend(var_entry(9, 0, 14));
    let vm = VarMeta::parse(&d, "test").unwrap();
    assert_eq!(vm.uid_count(), 2);
    assert_eq!(vm.entry_count(), 3);
    assert_eq!(vm.offset(7, 14), Some(100));
    assert_eq!(vm.offset(7, 6), Some(40));
    assert_eq!(vm.offset(9, 14), Some(0));
    assert_eq!(vm.sorted_offsets(), &[0, 40, 100]);
}

#[test]
fn var_meta_lists_uids_and_types_in_order() {
    let mut d = var_header(4, BLOCK_MAGIC);
    d.extend(var_entry(9, 0, 14));
    d.extend(var_entry(7, 100, 14));
    d.extend(var_entry(7, 40, 6));
    d.extend(var_entry(7, 50, 6));
    let vm = VarMeta::parse(&d, "test").unwrap();
    assert_eq!(vm.unique_ids(), vec![7, 9]);
    assert_eq!(vm.types_for(7), vec![6, 14]);
    assert_eq!(vm.types_for(8), Vec::<u16>::new());
    assert!(vm.has_uid(9));
    assert!(!vm.has_uid(8));
    assert_eq!(vm.offset(7, 6), Some(50));
    assert_eq!(vm.entry_count(), 3);
    assert_eq!(vm.sorted_offsets(), &[0, 40, 50, 100]);
}

#[test]
fn accepts_zero_magic_like_mpxj() {
    let d = var_header(0, 0);
    assert!(VarMeta::parse(&d, "test").is_ok());
}

#[test]
fn var_meta_rejects_bad_magic() {
    let d = var_header(0, 0xDEAD_BEEF);
    assert!(matches!(VarMeta::parse(&d, "test"), Err(MppError::Corrupt { .. })));
}

#[test]
fn var_meta_bad_magic_detail_shows_hex() {
    match VarMeta::parse(&var_header(0, 0xDEAD_BEEF), "TBkndRsc") {
        Err(MppError::Corrupt { context, detail }) => {
            assert_eq!(context, "TBkndRsc");
            assert_eq!(detail, "magic VarMeta inválido: 0xdeadbeef");
        }
        other => panic!("unexpected {other:?}"),
    }
    match VarMeta::parse(&[0xBA, 0xAD], "TBkndRsc") {
        Err(MppError::Corrupt { detail, .. }) => {
            assert_eq!(detail, "VarMeta más corto que el header")
        }
        other => panic!("unexpected {other:?}"),
    }
}

#[test]
fn truncated_entries_stop_silently() {
    let mut d = var_header(5, BLOCK_MAGIC);
    d.extend(var_entry(1, 0, 14));
    d.extend([0xAA, 0xBB]);
    let vm = VarMeta::parse(&d, "test").unwrap();
    assert_eq!(vm.entry_count(), 1);
}

#[test]
fn candidate_sizes_accept_large_candidates() {
    let d = fixed_block(3, &[&[0u8; 24]]);
    let fm = FixedMeta::parse_with_candidate_sizes(&d, 5, &[usize::MAX / 2, 8, 12], "test").unwrap();
    assert_eq!(fm.item_count(), 3);
    let fm = FixedMeta::parse_with_candidate_sizes(&d, 2, &[usize::MAX / 2, 8, 12], "test").unwrap();
    assert_eq!(fm.item_count(), 2);
}
