//! Offsets read out of the kernel's type information.

use cfc_daemon::ebpf::btf::{
    member_offsets, task_struct_offsets, BtfError, TaskStructOffsets, BTF_MAGIC, HEADER_LEN,
    KIND_INT, KIND_STRUCT,
};

fn blob(struct_name: &str, members: &[(&str, u32)], kind_flag: bool) -> Vec<u8> {
    let mut strings = vec![0u8];
    let off_of = |s: &str, strings: &mut Vec<u8>| -> u32 {
        let at = strings.len() as u32;
        strings.extend_from_slice(s.as_bytes());
        strings.push(0);
        at
    };
    let struct_name_off = off_of(struct_name, &mut strings);
    let member_offs: Vec<u32> = members
        .iter()
        .map(|(n, _)| off_of(n, &mut strings))
        .collect();

    let mut types = Vec::new();
    types.extend_from_slice(&0u32.to_le_bytes());
    types.extend_from_slice(&(KIND_INT << 24).to_le_bytes());
    types.extend_from_slice(&4u32.to_le_bytes());
    types.extend_from_slice(&0u32.to_le_bytes());

    let info = (u32::from(kind_flag) << 31) | (KIND_STRUCT << 24) | (members.len() as u32);
    types.extend_from_slice(&struct_name_off.to_le_bytes());
    types.extend_from_slice(&info.to_le_bytes());
    types.extend_from_slice(&4096u32.to_le_bytes());
    for ((_, bit_offset), name_off) in members.iter().zip(&member_offs) {
        types.extend_from_slice(&name_off.to_le_bytes());
        types.extend_from_slice(&1u32.to_le_bytes());
        types.extend_from_slice(&bit_offset.to_le_bytes());
    }

    let mut out = Vec::new();
    out.extend_from_slice(&BTF_MAGIC.to_le_bytes());
    out.push(1);
    out.push(0);
    out.extend_from_slice(&(HEADER_LEN as u32).to_le_bytes());
    out.extend_from_slice(&0u32.to_le_bytes());
    out.extend_from_slice(&(types.len() as u32).to_le_bytes());
    out.extend_from_slice(&(types.len() as u32).to_le_bytes());
    out.extend_from_slice(&(strings.len() as u32).to_le_bytes());
    out.extend_from_slice(&types);
    out.extend_from_slice(&strings);
    out
}

#[test]
fn finds_member_offsets_in_a_hand_built_blob() {
    let raw = blob(
        "task_struct",
        &[("state", 0x10), ("tgid", 0x9c0), ("real_parent", 0xb00)],
        false,
    );
    let got = member_offsets(&raw, "task_struct", &["real_parent", "tgid"]).unwrap();
    assert_eq!(got, vec![Some(0xb00 / 8), Some(0x9c0 / 8)]);
}

#[test]
fn missing_member_is_none_not_an_error() {
    let raw = blob("task_struct", &[("tgid", 64)], false);
    let got = member_offsets(&raw, "task_struct", &["real_parent", "tgid"]).unwrap();
    assert_eq!(got, vec![None, Some(8)]);
}

#[test]
fn kind_flag_masks_the_bitfield_width_out_of_the_offset() {
    let raw = blob("task_struct", &[("tgid", (5 << 24) | 512)], true);
    let got = member_offsets(&raw, "task_struct", &["tgid"]).unwrap();
    assert_eq!(got, vec![Some(64)]);
}

#[test]
fn unknown_struct_is_an_error() {
    let raw = blob("task_struct", &[("tgid", 0)], false);
    assert!(matches!(
        member_offsets(&raw, "sock", &["sk_protocol"]),
        Err(BtfError::NoSuchStruct { .. })
    ));
}

#[test]
fn rejects_a_blob_that_is_not_btf() {
    assert!(matches!(
        member_offsets(b"\x7fELF\0\0\0\0\0\0\0\0\0\0\0\0\0\0\0\0\0\0\0\0", "x", &[]),
        Err(BtfError::BadMagic { .. })
    ));
    assert!(matches!(
        member_offsets(b"short", "x", &[]),
        Err(BtfError::Truncated { .. })
    ));
}

#[test]
fn truncated_type_section_errors_instead_of_panicking() {
    let mut raw = blob("task_struct", &[("tgid", 0), ("real_parent", 64)], false);
    raw.truncate(raw.len() - 20);
    assert!(member_offsets(&raw, "task_struct", &["tgid"]).is_err());
}

#[test]
fn offsets_are_unresolved_until_both_are_found() {
    assert!(!TaskStructOffsets::default().is_resolved());
    assert!(!TaskStructOffsets {
        real_parent: 8,
        tgid: 0
    }
    .is_resolved());
    assert!(TaskStructOffsets {
        real_parent: 8,
        tgid: 16
    }
    .is_resolved());
}

#[test]
fn the_task_offsets_are_the_members_of_that_name() {
    let raw = blob(
        "task_struct",
        &[("tgid", 0x9c0), ("real_parent", 0xb00)],
        false,
    );
    let got = task_struct_offsets(&raw).unwrap();
    assert_eq!(got.real_parent, 0xb00 / 8);
    assert_eq!(got.tgid, 0x9c0 / 8);
    let raw = blob("task_struct", &[("tgid", 64)], false);
    let got = task_struct_offsets(&raw).unwrap();
    assert_eq!((got.real_parent, got.tgid), (0, 8));
}

#[test]
fn the_errors_name_what_is_wrong() {
    let e = member_offsets(b"short", "x", &[]).unwrap_err();
    assert!(e.message().contains("truncated"), "{}", e.message());
    let e = member_offsets(&[0u8; 24], "x", &[]).unwrap_err();
    assert!(e.message().contains("magic"), "{}", e.message());
    let raw = blob("task_struct", &[("tgid", 0)], false);
    let e = member_offsets(&raw, "sock", &["sk_protocol"]).unwrap_err();
    assert!(e.message().contains("sock"), "{}", e.message());
}

#[test]
fn a_name_that_is_not_utf8_matches_nothing() {
    let mut raw = blob("task_struct", &[("tgid", 64)], false);
    let at = raw.len() - 6;
    assert_eq!(&raw[at..], b"\0tgid\0");
    raw[at + 1] = 0xff;
    let got = member_offsets(&raw, "task_struct", &["tgid"]).unwrap();
    assert_eq!(got, vec![None]);
}
