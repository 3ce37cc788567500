//! Parsing of the storage engine's tabular listings.

use vm_state::listing::{parse_snapshots_listing, parse_states_listing, parse_zfs_list};

#[test]
fn rows_of_a_dataset_listing() {
    let output = "microvms/storage/states\t1.5G\t10G\nmicrovms/storage/states/web\t500M\t10G\nmicrovms/storage/states/db\t-\t10G\n";
    let rows = parse_zfs_list(output);
    assert_eq!(rows.len(), 3);
    assert_eq!(rows[0].0, "microvms/storage/states");
    assert_eq!(rows[0].1, 1610612736);
    assert_eq!(rows[0].2, 10 * 1024 * 1024 * 1024);
    assert_eq!(rows[1].0, "microvms/storage/states/web");
    assert_eq!(rows[1].1, 500 * 1024 * 1024);
    assert_eq!(rows[2].0, "microvms/storage/states/db");
    assert_eq!(rows[2].1, 0);
}

#[test]
fn short_and_empty_lines_are_dropped() {
    let output = "\nonly-one-field\ntwo fields\na b c\n";
    let rows = parse_zfs_list(output);
    assert_eq!(rows.len(), 1);
    assert_eq!(rows[0].0, "a");
    assert_eq!(rows[0].1, 0);
    assert_eq!(rows[0].2, 0);
}

#[test]
fn malformed_sizes_read_as_zero() {
    let rows = parse_zfs_list("name garbage alsogarbage\n");
    assert_eq!(rows.len(), 1);
    assert_eq!(rows[0].1, 0);
    assert_eq!(rows[0].2, 0);
}

#[test]
fn states_listing_drops_base_and_snapshots() {
    let base = "microvms/storage/states";
    let output = "microvms/storage/states\t1.5G\t10G\nmicrovms/storage/states/web\t500M\t10G\nmicrovms/storage/states/web@v1\t8K\t-\nmicrovms/storage/states/db\t2.25M\t10G\n";
    let states = parse_states_listing(output, base);
    assert_eq!(states.len(), 2);
    assert_eq!(states[0].state.name(), "web");
    assert_eq!(states[0].used_bytes, 500 * 1024 * 1024);
    assert_eq!(states[0].available_bytes, 10 * 1024 * 1024 * 1024);
    assert_eq!(states[0].zfs_dataset, "microvms/storage/states/web");
    assert_eq!(states[1].state.name(), "db");
    assert_eq!(states[1].used_bytes, 2359296);
}

#[test]
fn snapshots_listing_reads_composite_keys() {
    let output = "microvms/storage/states/web@v1\t8K\nmicrovms/storage/states/db@before-upgrade\t1.5M\n";
    let snaps = parse_snapshots_listing(output);
    assert_eq!(snaps.len(), 2);
    assert_eq!(snaps[0].state.name(), "web");
    assert_eq!(snaps[0].snapshot.name(), "v1");
    assert_eq!(snaps[0].full_name, "microvms/storage/states/web@v1");
    assert_eq!(snaps[0].used_bytes, 8192);
    assert_eq!(snaps[1].state.name(), "db");
    assert_eq!(snaps[1].snapshot.name(), "before-upgrade");
    assert_eq!(snaps[1].used_bytes, 1572864);
}

#[test]
fn snapshot_listing_of_one_snapshot_has_one_record() {
    // the scenario: state `web` snapshotted as `v1` lists exactly once,
    // addressed by its composite key
    let output = "microvms/storage/states/web@v1\t8K\n";
    let snaps = parse_snapshots_listing(output);
    assert_eq!(snaps.len(), 1);
    assert_eq!(snaps[0].full_name, "microvms/storage/states/web@v1");
}

#[test]
fn rows_without_the_delimiter_are_not_snapshots() {
    let output = "microvms/storage/states/web\t8K\njust-a-name\t1K\n";
    let snaps = parse_snapshots_listing(output);
    assert_eq!(snaps.len(), 0);
}

#[test]
fn carriage_returns_are_field_separators() {
    let rows = parse_zfs_list("a\t1K\t2K\r\nb\t3K\t4K\r\n");
    assert_eq!(rows.len(), 2);
    assert_eq!(rows[0].0, "a");
    assert_eq!(rows[0].1, 1024);
    assert_eq!(rows[0].2, 2048);
    assert_eq!(rows[1].0, "b");
    assert_eq!(rows[1].2, 4096);
}
