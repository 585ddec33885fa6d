use sql_lineage::error::{AnyError, Location, LocationError};
use sql_lineage::executing::{exit_code, get_target_root, workspace_script};
use sql_lineage::ip::{netmask_to_prefix4, netmask_to_prefix6, prefix_to_netmask4, prefix_to_netmask6};
use sql_lineage::readout::{address, explode, result_query, UdpTag49};
use sql_lineage::settings::{BootstrapSettings, ErrorSettings, MeasurementSettings};

#[test]
fn target_root_lies_under_smelt_out() {
    assert_eq!(get_target_root("/root", "build"), "/root/smelt-out/build");
    assert_eq!(get_target_root("", ""), "/smelt-out/");
}

#[test]
fn workspace_script_exports_then_runs() {
    let script = vec!["make".to_string(), "make test".to_string()];
    assert_eq!(
        workspace_script("/r", "c", "/w", &script),
        "export SMELT_ROOT=/r\nexport TARGET_ROOT=/r/smelt-out/c\ncd /w\nmake\nmake test\n"
    );
    assert_eq!(
        workspace_script("/r", "c", "/w", &vec![]),
        "export SMELT_ROOT=/r\nexport TARGET_ROOT=/r/smelt-out/c\ncd /w\n"
    );
}

#[test]
fn exit_code_without_a_code() {
    assert_eq!(exit_code(Some(0)), 0);
    assert_eq!(exit_code(Some(3)), 3);
    assert_eq!(exit_code(None), -555);
}

#[test]
fn location_is_shown_with_colons() {
    let l = Location::new("src/lib.rs", 12, 7);
    assert_eq!(l.to_text(), "src/lib.rs:12:7");
    assert_eq!(Location::new("a", 0, 4294967295).to_text(), "a:0:4294967295");
    assert_eq!(l.file(), "src/lib.rs");
    assert_eq!(l.line(), 12);
    assert_eq!(l.column(), 7);
}

#[test]
fn location_error_keeps_error_and_place() {
    let l = Location::new("f", 1, 2);
    let mut e = LocationError::new(5u32, l.clone());
    assert_eq!(*e.error(), 5);
    assert_eq!(*e.location(), l);
    *e.error_mut() = 6;
    assert_eq!(*e.error(), 6);
    let by_ref = e.map_ref(|x| *x + 1);
    assert_eq!(*by_ref.error(), 7);
    assert_eq!(*by_ref.location(), l);
    let mapped = e.map(|x| x.to_string());
    assert_eq!(mapped.error(), "6");
    assert_eq!(*mapped.location(), l);
    assert_eq!(mapped.into_error(), "6");
    let widened: LocationError<u64> = LocationError::from2(9u32, l.clone());
    assert_eq!(widened.into_error(), 9u64);
}

#[test]
fn any_error_keeps_its_message() {
    assert_eq!(AnyError::msg("it broke").message(), "it broke");
}

#[test]
fn settings_default_to_valid_counts() {
    let s = MeasurementSettings::default();
    assert_eq!(s.num_repeats, 10);
    assert_eq!(s.bootstrap, BootstrapSettings { seed: 42, samples: Some(1000) });
    assert_eq!(s.error, ErrorSettings { bins: 100, resamples: 100 });
    assert!(s.is_valid());
    let mut bad = MeasurementSettings::default();
    bad.bootstrap.samples = Some(0);
    assert!(!bad.is_valid());
    bad.bootstrap.samples = None;
    assert!(bad.is_valid());
    bad.error.bins = 0;
    assert!(!bad.is_valid());
}

#[test]
fn netmasks_and_prefixes() {
    assert_eq!(netmask_to_prefix4(0xffff_ff00), 24);
    assert_eq!(netmask_to_prefix4(0), 0);
    assert_eq!(netmask_to_prefix4(0xffff_ffff), 32);
    assert_eq!(netmask_to_prefix4(0xff00_ff00), 8);
    assert_eq!(prefix_to_netmask4(8), 0xffff_ff00);
    assert_eq!(prefix_to_netmask4(0), 0xffff_ffff);
    assert_eq!(netmask_to_prefix6(u128::MAX), 128);
    assert_eq!(netmask_to_prefix6(u128::MAX << 64), 64);
    assert_eq!(netmask_to_prefix6(u128::MAX << 60), 68);
    assert_eq!(netmask_to_prefix6(u128::MAX << 100), 28);
    assert_eq!(netmask_to_prefix6(0), 0);
    assert_eq!(prefix_to_netmask6(64), u128::MAX << 64);
}

#[test]
fn records_unfold_into_rows() {
    let tags = vec![
        UdpTag49 { len_trigger: 1, run_counter: 10, channel: vec![1, 2, 3], peak: vec![7, 8] },
        UdpTag49 { len_trigger: 2, run_counter: 11, channel: vec![], peak: vec![9] },
        UdpTag49 { len_trigger: 3, run_counter: 12, channel: vec![4], peak: vec![5] },
    ];
    assert_eq!(explode(&tags), vec![(1, 10, 1, 7), (1, 10, 2, 8), (3, 12, 4, 5)]);
    assert_eq!(explode(&vec![]), vec![]);
}

#[test]
fn query_and_address_texts() {
    assert_eq!(
        result_query("amplitude", "7"),
        "SELECT run_counter, len_trigger, channel, peak FROM amplitude WHERE run_id = 7 ORDER BY run_counter ASC"
    );
    assert_eq!(address("127.0.0.1", "8000"), "127.0.0.1:8000");
}
