use wasefire_interpreter::cursor::CursorState;
use wasefire_interpreter::error::{Error, Unsupported};
use wasefire_interpreter::side_table::{
    serialize, BranchTableEntry, BranchTableEntryView, MetadataEntry, SideTableView,
};

#[test]
fn branch_entry_round_trip() {
    for view in [
        BranchTableEntryView { delta_ip: 0, delta_stp: 0, val_cnt: 0, pop_cnt: 0 },
        BranchTableEntryView { delta_ip: -5, delta_stp: 3, val_cnt: 1, pop_cnt: 2 },
        BranchTableEntryView { delta_ip: 0x3ffff, delta_stp: -0x1000, val_cnt: 15, pop_cnt: 0xfff },
        BranchTableEntryView { delta_ip: -0x40000, delta_stp: 0xfff, val_cnt: 3, pop_cnt: 0 },
    ] {
        let entry = BranchTableEntry::new(view).unwrap();
        assert_eq!(entry.view(), view);
        assert_eq!(entry.is_invalid(), view == BranchTableEntryView { delta_ip: 0, delta_stp: 0, val_cnt: 0, pop_cnt: 0 });
    }
}

#[test]
fn branch_entry_out_of_range() {
    let ok = BranchTableEntryView { delta_ip: 0, delta_stp: 0, val_cnt: 0, pop_cnt: 0 };
    for view in [
        BranchTableEntryView { delta_ip: 0x40000, ..ok },
        BranchTableEntryView { delta_ip: -0x40001, ..ok },
        BranchTableEntryView { delta_stp: 0x1000, ..ok },
        BranchTableEntryView { val_cnt: 16, ..ok },
        BranchTableEntryView { pop_cnt: 0x1000, ..ok },
    ] {
        assert_eq!(BranchTableEntry::new(view).err(), Some(Error::Unsupported(Unsupported::SideTable)));
    }
}

#[test]
fn invalid_branch_entry() {
    let entry = BranchTableEntry::invalid();
    assert!(entry.is_invalid());
    assert_eq!(entry.0, [0; 6]);
    let view = entry.view();
    assert_eq!((view.delta_ip, view.delta_stp, view.val_cnt, view.pop_cnt), (0, 0, 0, 0));
}

#[test]
fn serialize_two_entries() {
    let branch = BranchTableEntry::new(BranchTableEntryView {
        delta_ip: 1,
        delta_stp: 0,
        val_cnt: 0,
        pop_cnt: 0,
    })
    .unwrap();
    let side_table = vec![
        MetadataEntry {
            type_idx: 1,
            parser_state: CursorState::from_range(3 .. 9),
            branch_table: vec![branch],
        },
        MetadataEntry {
            type_idx: 0x102,
            parser_state: CursorState::from_range(0x10000 .. 0x10001),
            branch_table: vec![],
        },
    ];
    let mut expected = vec![2, 0, 0, 0, 16, 0, 26, 0];
    expected.extend_from_slice(&[1, 0, 3, 0, 0, 0, 9, 0, 0, 0]);
    expected.extend_from_slice(&branch.0);
    expected.extend_from_slice(&[2, 1, 0, 0, 1, 0, 1, 0, 1, 0]);
    assert_eq!(serialize(&side_table), Ok(expected));
}

#[test]
fn serialize_too_large() {
    let side_table = vec![MetadataEntry {
        type_idx: 0x10000,
        parser_state: CursorState::from_range(0 .. 1),
        branch_table: vec![],
    }];
    assert_eq!(serialize(&side_table), Err(Error::Unsupported(Unsupported::SideTable)));
}

#[test]
fn serialize_then_read_back() {
    let branch = BranchTableEntry::new(BranchTableEntryView {
        delta_ip: -3,
        delta_stp: 2,
        val_cnt: 1,
        pop_cnt: 4,
    })
    .unwrap();
    let side_table = vec![
        MetadataEntry {
            type_idx: 3,
            parser_state: CursorState::from_range(10 .. 40),
            branch_table: vec![branch, BranchTableEntry::invalid()],
        },
        MetadataEntry {
            type_idx: 0,
            parser_state: CursorState::from_range(40 .. 41),
            branch_table: vec![],
        },
    ];
    let bytes = serialize(&side_table).unwrap();
    let n = side_table.len();
    assert_eq!(u16::from_le_bytes([bytes[0], bytes[1]]) as usize, n);
    let view = SideTableView { indices: &bytes[2 .. 4 + 2 * n], metadata: &bytes[4 + 2 * n ..] };
    for (i, entry) in side_table.iter().enumerate() {
        let metadata = view.metadata(i).unwrap();
        assert_eq!(metadata.type_idx(), Ok(entry.type_idx));
        let state = metadata.parser_state().unwrap();
        assert_eq!((state.start(), state.end()), (entry.parser_state.start(), entry.parser_state.end()));
        let table = metadata.branch_table().unwrap();
        assert_eq!(table.len(), entry.branch_table.len());
        for (x, y) in table.iter().zip(entry.branch_table.iter()) {
            assert_eq!(x.0, y.0);
        }
    }
    assert_eq!(view.metadata(n).err(), Some(Error::Invalid));
}
