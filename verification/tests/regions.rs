use arnis_tiles::region::{
    copy_failed_message, core_region_range, invalid_name_message, merge_action, parse_region_name,
    CoreCorners, MergeAction, RegionName, RegionRange,
};
use arnis_tiles::text::{chars_of, parse_i32, push_decimal, same_text};

fn region(rx: i32, rz: i32) -> RegionName {
    RegionName::Region { rx, rz }
}

#[test]
fn corners_become_regions_by_flooring() {
    let corners = CoreCorners { min_x: -513, max_x: 1023, min_z: -1, max_z: 512 };
    assert_eq!(
        core_region_range(Some(corners)),
        Some(RegionRange { min_rx: -2, max_rx: 1, min_rz: -1, max_rz: 1 })
    );
    let extreme = CoreCorners { min_x: i32::MIN, max_x: i32::MAX, min_z: 0, max_z: -512 };
    assert_eq!(
        core_region_range(Some(extreme)),
        Some(RegionRange { min_rx: -4194304, max_rx: 4194303, min_rz: -1, max_rz: 0 })
    );
    assert_eq!(core_region_range(None), None);
}

#[test]
fn corners_in_either_order_give_the_same_regions() {
    let up = CoreCorners { min_x: -700, max_x: 1500, min_z: -20, max_z: 513 };
    let down = CoreCorners { min_x: 1500, max_x: -700, min_z: 513, max_z: -20 };
    let range = RegionRange { min_rx: -2, max_rx: 2, min_rz: -1, max_rz: 1 };
    assert_eq!(core_region_range(Some(up)), Some(range));
    assert_eq!(core_region_range(Some(down)), Some(range));
    assert_eq!(merge_action("r.0.0.mca", &range), MergeAction::Copy);
}

#[test]
fn region_holds_its_blocks() {
    let corners = CoreCorners { min_x: 511, max_x: 512, min_z: 1023, max_z: 511 };
    assert_eq!(
        core_region_range(Some(corners)),
        Some(RegionRange { min_rx: 0, max_rx: 1, min_rz: 0, max_rz: 1 })
    );
}

#[test]
fn region_names() {
    assert_eq!(parse_region_name("r.0.0.mca"), region(0, 0));
    assert_eq!(parse_region_name("r.-12.345.mca"), region(-12, 345));
    assert_eq!(parse_region_name("r.+7.-0.mca"), region(7, 0));
    assert_eq!(parse_region_name("r.007.000000000000000000001.mca"), region(7, 1));
    assert_eq!(
        parse_region_name("r.-2147483648.2147483647.mca"),
        region(i32::MIN, i32::MAX)
    );
}

#[test]
fn repeated_starts_and_ends_are_stripped() {
    assert_eq!(parse_region_name("r.r.1.2.mca.mca"), region(1, 2));
}

#[test]
fn other_files() {
    for name in [
        "", "r.", ".mca", "r.mca", "r..mca", "r.1.mca", "r.1.2.3.mca", "r.1.2.mcr", "c.1.2.mca",
        "level.dat", "R.1.2.mca", "r.1.2.MCA",
    ] {
        assert_eq!(parse_region_name(name), RegionName::Other, "{name}");
    }
}

#[test]
fn malformed_region_names() {
    for name in [
        "r.a.2.mca", "r.1.b.mca", "r.1..mca", "r..1.mca", "r.-.1.mca", "r.+.1.mca", "r.1 .2.mca",
        "r.2147483648.0.mca", "r.0.-2147483649.mca", "r.--1.0.mca", "r.9999999999999999999.0.mca",
        "r.\u{0661}.0.mca",
    ] {
        assert_eq!(parse_region_name(name), RegionName::Invalid, "{name}");
    }
}

#[test]
fn core_regions_are_copied() {
    let range = RegionRange { min_rx: -1, max_rx: 2, min_rz: 3, max_rz: 3 };
    assert_eq!(merge_action("r.-1.3.mca", &range), MergeAction::Copy);
    assert_eq!(merge_action("r.2.3.mca", &range), MergeAction::Copy);
    assert_eq!(merge_action("r.-2.3.mca", &range), MergeAction::Skip);
    assert_eq!(merge_action("r.3.3.mca", &range), MergeAction::Skip);
    assert_eq!(merge_action("r.0.2.mca", &range), MergeAction::Skip);
    assert_eq!(merge_action("r.0.4.mca", &range), MergeAction::Skip);
    assert_eq!(merge_action("session.lock", &range), MergeAction::Skip);
    assert_eq!(merge_action("r.x.3.mca", &range), MergeAction::Reject);
    let none = RegionRange { min_rx: 1, max_rx: 0, min_rz: 0, max_rz: 0 };
    assert_eq!(merge_action("r.1.0.mca", &none), MergeAction::Skip);
}

#[test]
fn file_names_round_trip() {
    for rx in [i32::MIN, -10, -1, 0, 9, 10, i32::MAX] {
        for rz in [i32::MIN, -1, 0, 100, i32::MAX] {
            assert_eq!(parse_region_name(&format!("r.{rx}.{rz}.mca")), region(rx, rz));
        }
    }
}

#[test]
fn region_messages() {
    assert_eq!(invalid_name_message("r.x.3.mca"), "invalid region filename: r.x.3.mca");
    assert_eq!(copy_failed_message("r.0.0.mca", "disk full"), "copy r.0.0.mca: disk full");
}

#[test]
fn numbers_read_like_the_standard_library_reads_them() {
    for s in [
        "0", "-0", "+0", "1", "-1", "+1", "", "-", "+", "+-1", "2147483647", "2147483648",
        "-2147483648", "-2147483649", "00000000000000000000000042", "4 2", "4_2", "0x10", "１",
        "99999999999999999999x", "-99999999999999999999",
    ] {
        let chars: Vec<char> = s.chars().collect();
        assert_eq!(parse_i32(&chars), s.parse::<i32>().ok(), "{s}");
    }
}

#[test]
fn decimal_notation() {
    for n in [0u64, 7, 10, 99, 100, 1234567890, u64::MAX] {
        let mut out = "n=".to_string();
        push_decimal(&mut out, n);
        assert_eq!(out, format!("n={n}"));
    }
}

#[test]
fn text_comparison() {
    assert_eq!(chars_of("añ几"), vec!['a', 'ñ', '几']);
    assert!(same_text("añ几", "añ几"));
    assert!(!same_text("a", "ab"));
    assert!(!same_text("ab", "aB"));
    assert!(same_text("", ""));
}
