use std::io::{Cursor, Write};

use mpxrust::blocks::var_meta::BLOCK_MAGIC;
use mpxrust::container::MppContainer;
use mpxrust::dec::TimeUnit;
use mpxrust::field_map::{resource, task, RESOURCE_FIELD_BASE, TASK_FIELD_BASE};
use mpxrust::model::Duration;
use mpxrust::version::{ENCRYPTION_CODE, PASSWORD_FLAG, PROTECTION_PASSWORD_HASH};
use mpxrust::{inspect, read_mpp_bytes, MppError, Relation, RelationType};

const TITLE: i32 = 37748744;
const MINUTES_PER_DAY: i32 = 37748765;
const PROJECT_START_DATE: i32 = 37748738;
const PROJECT_FINISH_DATE: i32 = 37748739;

fn utf16(s: &str) -> Vec<u8> {
    s.encode_utf16().flat_map(u16::to_le_bytes).collect()
}

fn comp_obj(name: &str, format: &str) -> Vec<u8> {
    let mut d = vec![0u8; 28];
    for s in [name, format, "MSProject.Project.9"] {
        d.extend(((s.len() + 1) as i32).to_le_bytes());
        d.extend(s.as_bytes());
        d.push(0);
    }
    d
}

fn props(entries: &[(i32, Vec<u8>)]) -> Vec<u8> {
    let mut d = vec![0u8; 16];
    d[12..14].copy_from_slice(&(entries.len() as u16).to_le_bytes());
    for (key, content) in entries {
        d.extend((content.len() as i32).to_le_bytes());
        d.extend(key.to_le_bytes());
        d.extend(0i32.to_le_bytes());
        d.extend(content);
        if content.len() % 2 != 0 {
            d.push(0);
        }
    }
    d
}

fn field_entry(fixed_offset: u16, type_value: i32, category: u16) -> Vec<u8> {
    let mut e = vec![0u8; 28];
    e[4..6].copy_from_slice(&fixed_offset.to_le_bytes());
    e[12..16].copy_from_slice(&type_value.to_le_bytes());
    e[20..22].copy_from_slice(&category.to_le_bytes());
    e
}

/// A VarMeta block and its Var2Data: one entry `(uid, type, content)` each.
fn var_blocks(entries: &[(u32, u16, Vec<u8>)]) -> (Vec<u8>, Vec<u8>) {
    let mut meta = Vec::new();
    meta.extend(BLOCK_MAGIC.to_le_bytes());
    meta.extend(0u32.to_le_bytes());
    meta.extend((entries.len() as u32).to_le_bytes());
    meta.extend([0u8; 12]);
    let mut data = Vec::new();
    for (uid, typ, content) in entries {
        meta.extend(uid.to_le_bytes());
        meta.extend((data.len() as u32).to_le_bytes());
        meta.extend(typ.to_le_bytes());
        meta.extend(0u16.to_le_bytes());
        data.extend((content.len() as i32).to_le_bytes());
        data.extend(content);
    }
    (meta, data)
}

fn fixed_meta(items: &[Vec<u8>]) -> Vec<u8> {
    let mut d = Vec::new();
    d.extend(BLOCK_MAGIC.to_le_bytes());
    d.extend(0u32.to_le_bytes());
    d.extend((items.len() as u32).to_le_bytes());
    d.extend(0u32.to_le_bytes());
    for i in items {
        d.extend(i);
    }
    d
}

/// A metadata item of `size` bytes whose data offset is `offset`.
fn meta_item(size: usize, offset: i32) -> Vec<u8> {
    let mut m = vec![0u8; size];
    m[4..8].copy_from_slice(&offset.to_le_bytes());
    m
}

fn compound(storages: &[&str], streams: &[(&str, Vec<u8>)]) -> Vec<u8> {
    let mut comp = cfb::CompoundFile::create(Cursor::new(Vec::new())).unwrap();
    for s in storages {
        comp.create_storage(s).unwrap();
    }
    for (path, data) in streams {
        let mut stream = comp.create_stream(path).unwrap();
        stream.write_all(data).unwrap();
    }
    comp.flush().unwrap();
    comp.into_inner().into_inner()
}

fn xor(data: &[u8], mask: u8) -> Vec<u8> {
    data.iter().map(|b| b ^ mask).collect()
}

/// A small MPP14 project: three tasks (1 is the parent of 2 and 3), three
/// resource entries, three assignment items, optional dependency storage,
/// and optional obfuscation with `mask`.
fn project(with_relations: bool, mask: u8) -> Vec<u8> {
    let mut task_map = Vec::new();
    task_map.extend(field_entry(0, TASK_FIELD_BASE | task::UNIQUE_ID as i32, 0x03));
    task_map.extend(field_entry(4, TASK_FIELD_BASE | task::PARENT_TASK_UNIQUE_ID as i32, 0x03));
    task_map.extend(field_entry(65535, TASK_FIELD_BASE | task::NAME as i32, 0x08));
    let mut resource_map = Vec::new();
    resource_map.extend(field_entry(65535, RESOURCE_FIELD_BASE | resource::NAME as i32, 0x08));
    resource_map.extend(field_entry(
        65535,
        RESOURCE_FIELD_BASE | resource::EMAIL_ADDRESS as i32,
        0x08,
    ));
    let assignment_map = field_entry(0, TASK_FIELD_BASE | 1, 0x03);
    let project_props = props(&[
        (131092, task_map),
        (131093, resource_map),
        (131095, assignment_map),
        (TITLE, utf16("Demo")),
        (MINUTES_PER_DAY, 420i32.to_le_bytes().to_vec()),
        (PROJECT_START_DATE, [4800u16.to_le_bytes(), 15486u16.to_le_bytes()].concat()),
        (PROJECT_FINISH_DATE, [20000u16.to_le_bytes(), 15486u16.to_le_bytes()].concat()),
    ]);

    let (task_vm, task_v2) = var_blocks(&[
        (1, task::NAME, utf16("Raíz")),
        (2, task::NAME, utf16("  Diseño ")),
        (3, task::NAME, utf16("Obra")),
    ]);
    let task_meta: Vec<Vec<u8>> = (0..6).map(|i| meta_item(47, i * 12)).collect();
    let mut task_data = vec![0u8; 36];
    for (uid, parent) in [(1i32, -1i32), (2, 1), (3, 1)] {
        task_data.extend(uid.to_le_bytes());
        task_data.extend(parent.to_le_bytes());
        task_data.extend([0u8; 4]);
    }
    let task_meta2: Vec<Vec<u8>> = (0..6).map(|i| meta_item(92, i * 4)).collect();

    let (rsc_vm, rsc_v2) = var_blocks(&[
        (1, resource::NAME, utf16("Ana")),
        (2, resource::EMAIL_ADDRESS, utf16("bea@example.org")),
        (3, resource::NAME, Vec::new()),
    ]);

    let (assn_vm, assn_v2) = var_blocks(&[(10, 1, vec![0, 0]), (11, 1, vec![0, 0])]);
    let mut assn_data = Vec::new();
    for (uid, task_uid, rsc) in [(10i32, 2i32, 1i32), (11, 99, 1), (12, 3, 1)] {
        let mut item = vec![0u8; 110];
        item[0..4].copy_from_slice(&uid.to_le_bytes());
        item[4..8].copy_from_slice(&task_uid.to_le_bytes());
        item[8..12].copy_from_slice(&rsc.to_le_bytes());
        assn_data.extend(item);
    }

    let mut streams: Vec<(&str, Vec<u8>)> = vec![
        ("/\u{1}CompObj", comp_obj("Microsoft Project 16.0", "MSProject.MPP14")),
        ("/   114/Props", xor(&project_props, mask)),
        ("/   114/TBkndTask/VarMeta", task_vm),
        ("/   114/TBkndTask/Var2Data", task_v2),
        ("/   114/TBkndTask/FixedMeta", fixed_meta(&task_meta)),
        ("/   114/TBkndTask/FixedData", task_data),
        ("/   114/TBkndTask/Fixed2Meta", fixed_meta(&task_meta2)),
        ("/   114/TBkndTask/Fixed2Data", vec![0u8; 24]),
        ("/   114/TBkndRsc/VarMeta", rsc_vm),
        ("/   114/TBkndRsc/Var2Data", rsc_v2),
        ("/   114/TBkndAssn/VarMeta", assn_vm),
        ("/   114/TBkndAssn/Var2Data", assn_v2),
        ("/   114/TBkndAssn/FixedMeta", fixed_meta(&[vec![0u8; 34]])),
        ("/   114/TBkndAssn/FixedData", xor(&assn_data, mask)),
    ];
    let mut storages = vec![
        "/   114",
        "/   114/TBkndTask",
        "/   114/TBkndRsc",
        "/   114/TBkndAssn",
    ];
    if with_relations {
        let mut rel = vec![0u8; 20];
        rel[4..8].copy_from_slice(&2i32.to_le_bytes());
        rel[8..12].copy_from_slice(&3i32.to_le_bytes());
        rel[12..14].copy_from_slice(&3u16.to_le_bytes());
        rel[14..18].copy_from_slice(&4800i32.to_le_bytes());
        rel[18..20].copy_from_slice(&7u16.to_le_bytes());
        let mut deleted = meta_item(10, 0);
        deleted[0] = 1;
        storages.push("/   114/TBkndCons");
        streams.push(("/   114/TBkndCons/FixedMeta", fixed_meta(&[meta_item(10, 0), deleted])));
        streams.push(("/   114/TBkndCons/FixedData", xor(&rel, mask)));
    }
    if mask != 0 {
        streams.push((
            "/Props14",
            props(&[(PASSWORD_FLAG, vec![2]), (ENCRYPTION_CODE, vec![0xFF - mask])]),
        ));
    }
    compound(&storages, &streams)
}

#[test]
fn non_mpp_bytes_give_clear_error() {
    let err = read_mpp_bytes(b"esto no es un compound file").unwrap_err();
    assert!(matches!(err, MppError::NotACompoundFile(_)), "{err:?}");
}

#[test]
fn reads_tasks_resources_and_assignments() {
    let pf = read_mpp_bytes(&project(false, 0)).unwrap();
    assert_eq!(pf.properties.title.as_deref(), Some("Demo"));
    assert_eq!(pf.properties.minutes_per_day, Some(420));
    assert_eq!(pf.properties.start_date.as_deref(), Some("2026-05-25"));
    assert_eq!(pf.properties.finish_date.as_deref(), Some("2026-05-26"));
    let uids: Vec<u32> = pf.tasks.iter().map(|t| t.uid).collect();
    assert_eq!(uids, vec![1, 2, 3]);
    assert_eq!(pf.tasks[0].name.as_deref(), Some("Raíz"));
    assert_eq!(pf.tasks[1].name.as_deref(), Some("Diseño"));
    assert_eq!(pf.tasks[0].parent_uid, None);
    assert_eq!(pf.tasks[1].parent_uid, Some(1));
    assert_eq!(pf.tasks[2].parent_uid, Some(1));
    assert!(pf.tasks[0].is_summary);
    assert!(!pf.tasks[1].is_summary);
    assert!(pf.tasks.iter().all(|t| t.predecessors.is_empty()));
    assert_eq!(pf.tasks[1].id, None);
    assert_eq!(pf.resources.len(), 2);
    assert_eq!(pf.resources[0].uid, 1);
    assert_eq!(pf.resources[0].name.as_deref(), Some("Ana"));
    assert_eq!(pf.resources[0].email, None);
    assert_eq!(pf.resources[1].uid, 2);
    assert_eq!(pf.resources[1].email.as_deref(), Some("bea@example.org"));
    assert_eq!(pf.assignments.len(), 1);
    assert_eq!(pf.assignments[0].task_uid, 2);
    assert_eq!(pf.assignments[0].resource_uid, 1);
    assert_eq!(pf.assignments[0].units, None);
    assert_eq!(pf.assignments[0].work, None);
}

#[test]
fn every_assignment_names_a_task_and_uids_ascend() {
    let pf = read_mpp_bytes(&project(true, 0)).unwrap();
    for a in &pf.assignments {
        assert!(pf.tasks.iter().any(|t| t.uid == a.task_uid));
    }
    for w in pf.tasks.windows(2) {
        assert!(w[0].uid < w[1].uid);
    }
}

#[test]
fn dependencies_attach_to_their_successor() {
    let pf = read_mpp_bytes(&project(true, 0)).unwrap();
    assert!(pf.tasks[0].predecessors.is_empty());
    assert!(pf.tasks[1].predecessors.is_empty());
    assert_eq!(
        pf.tasks[2].predecessors,
        vec![Relation {
            predecessor_uid: 2,
            kind: RelationType::StartStart,
            lag: Some(Duration { tenths_of_minute: 4800, units: TimeUnit::Days }),
        }]
    );
}

#[test]
fn obfuscated_streams_are_decoded() {
    let plain = read_mpp_bytes(&project(true, 0)).unwrap();
    let masked = read_mpp_bytes(&project(true, 0x5A)).unwrap();
    assert_eq!(masked.properties.title.as_deref(), Some("Demo"));
    assert_eq!(masked.tasks.len(), plain.tasks.len());
    assert_eq!(masked.tasks[2].predecessors, plain.tasks[2].predecessors);
    assert_eq!(masked.assignments, plain.assignments);
}

#[test]
fn inspect_counts_task_blocks() {
    let c = MppContainer::open(project(false, 0)).unwrap();
    assert_eq!(c.application_version(), 16);
    assert_eq!(c.file_format(), "MSProject.MPP14");
    assert!(c.has_stream("TBkndTask/VarMeta"));
    assert!(!c.has_stream("TBkndCons/FixedMeta"));
    let s = inspect(c).unwrap();
    assert_eq!(s.application_name, "Microsoft Project 16.0");
    assert_eq!(s.file_format, "MSProject.MPP14");
    assert_eq!(s.application_version, 16);
    assert_eq!(s.project_props_count, 7);
    assert_eq!(s.tasks.var_uid_count, 3);
    assert_eq!(s.tasks.var_entry_count, 3);
    assert_eq!(s.tasks.fixed_item_count, 6);
    assert_eq!(s.tasks.fixed_populated_count, 6);
}

#[test]
fn container_streams_and_obfuscation() {
    let mut c = MppContainer::open(project(false, 0x0F)).unwrap();
    let raw = c.stream("TBkndAssn/FixedData").unwrap();
    let plain = c.stream_decrypted("TBkndAssn/FixedData").unwrap();
    assert_eq!(raw.len(), 330);
    assert_eq!(plain, xor(&raw, 0x0F));
    assert_eq!(&plain[0..4], &10i32.to_le_bytes());
    assert!(matches!(
        c.stream("TBkndNope/VarMeta"),
        Err(MppError::Corrupt { .. })
    ));
    let p = c.project_props().unwrap();
    assert_eq!(p.len(), 7);
}

#[test]
fn older_formats_are_unsupported_with_a_readable_name() {
    let file = compound(&[], &[("/\u{1}CompObj", comp_obj("Microsoft Project 12.0", "MSProject.MPP12"))]);
    match read_mpp_bytes(&file) {
        Err(MppError::UnsupportedVersion { found }) => assert_eq!(found, "MPP12 (Project 2007)"),
        other => panic!("unexpected {other:?}"),
    }
    let file = compound(&[], &[("/\u{1}CompObj", comp_obj("Foo", "Other.Format"))]);
    match read_mpp_bytes(&file) {
        Err(MppError::UnsupportedVersion { found }) => assert_eq!(found, "Other.Format"),
        other => panic!("unexpected {other:?}"),
    }
}

#[test]
fn missing_project_storage_is_corrupt() {
    let file = compound(&[], &[("/\u{1}CompObj", comp_obj("Microsoft Project 14.0", "MSProject.MPP14"))]);
    match read_mpp_bytes(&file) {
        Err(MppError::Corrupt { context, detail }) => {
            assert_eq!(context, "raíz");
            assert_eq!(detail, "CompObj dice MPP14 pero falta el storage '   114'");
        }
        other => panic!("unexpected {other:?}"),
    }
}

#[test]
fn unreadable_comp_obj_is_corrupt() {
    let file = compound(&["/   114"], &[("/\u{1}CompObj", vec![0u8; 30])]);
    match read_mpp_bytes(&file) {
        Err(MppError::Corrupt { context, detail }) => {
            assert_eq!(context, "CompObj");
            assert_eq!(detail, "no se pudo leer applicationName");
        }
        other => panic!("unexpected {other:?}"),
    }
}

#[test]
fn read_password_makes_the_file_unreadable() {
    let file = compound(
        &["/   114"],
        &[
            ("/\u{1}CompObj", comp_obj("Microsoft Project 14.0", "MSProject.MPP14")),
            ("/Props14", props(&[(PASSWORD_FLAG, vec![1]), (PROTECTION_PASSWORD_HASH, vec![9, 9])])),
        ],
    );
    assert!(matches!(read_mpp_bytes(&file), Err(MppError::PasswordProtected)));
}

#[test]
fn missing_streams_and_field_maps_are_corrupt() {
    let file = compound(
        &["/   114"],
        &[("/\u{1}CompObj", comp_obj("Microsoft Project 14.0", "MSProject.MPP14"))],
    );
    match read_mpp_bytes(&file) {
        Err(MppError::Corrupt { context, .. }) => assert_eq!(context, "Props"),
        other => panic!("unexpected {other:?}"),
    }
    let file = compound(
        &["/   114"],
        &[
            ("/\u{1}CompObj", comp_obj("Microsoft Project 14.0", "MSProject.MPP14")),
            ("/   114/Props", props(&[(TITLE, utf16("x"))])),
        ],
    );
    match read_mpp_bytes(&file) {
        Err(MppError::Corrupt { context, detail }) => {
            assert_eq!(context, "TASK_FIELD_MAP");
            assert_eq!(
                detail,
                "el archivo no trae field map serializado (defaults no implementados)"
            );
        }
        other => panic!("unexpected {other:?}"),
    }
}

#[test]
fn short_root_props14_is_corrupt() {
    let file = compound(
        &["/   114"],
        &[
            ("/\u{1}CompObj", comp_obj("Microsoft Project 14.0", "MSProject.MPP14")),
            ("/Props14", vec![0u8; 8]),
        ],
    );
    match read_mpp_bytes(&file) {
        Err(MppError::Corrupt { context, detail }) => {
            assert_eq!(context, "Props14");
            assert_eq!(detail, "Props más corto que el header");
        }
        other => panic!("unexpected {other:?}"),
    }
}
