use deskctrl::binary64::Binary64;
use deskctrl::data::{DiskInfo, DiskUsage, StorageUnit};
use deskctrl::disk::{collected, DiskTable};

fn disk(name: &str, mount_point: &str) -> DiskInfo {
    DiskInfo {
        name: name.to_string(),
        mount_point: mount_point.to_string(),
        removable: false,
        usage: DiskUsage {
            used: (Binary64 { bits: 0 }, StorageUnit::Byte),
            total: (Binary64 { bits: 0 }, StorageUnit::Byte),
            percent: Binary64 { bits: 0 },
        },
    }
}

fn listed(disks: Vec<DiskInfo>) -> Vec<(String, String)> {
    let mut table = DiskTable::new();
    for disk in disks {
        table.insert(disk);
    }
    table
        .listed()
        .into_iter()
        .map(|disk| (disk.name, disk.mount_point))
        .collect()
}

fn named(pairs: &[(&str, &str)]) -> Vec<(String, String)> {
    pairs
        .iter()
        .map(|(name, mount_point)| (name.to_string(), mount_point.to_string()))
        .collect()
}

#[test]
fn disks_are_listed_by_name() {
    assert_eq!(
        listed(vec![
            disk("/dev/sdb1", "/"),
            disk("/dev/sda2", "/home"),
            disk("/dev/sda1", "/boot"),
        ]),
        named(&[
            ("/dev/sda1", "/boot"),
            ("/dev/sda2", "/home"),
            ("/dev/sdb1", "/"),
        ])
    );
}

#[test]
fn disks_of_one_name_are_listed_by_mount_point() {
    assert_eq!(
        listed(vec![disk("tmpfs", "/tmp"), disk("tmpfs", "/dev/shm"), disk("a", "/z")]),
        named(&[("a", "/z"), ("tmpfs", "/dev/shm"), ("tmpfs", "/tmp")])
    );
}

#[test]
fn automatic_mounts_and_the_boot_partition_are_not_listed() {
    assert_eq!(
        listed(vec![
            disk("systemd-1", "/mnt"),
            disk("/dev/sda1", "/efi"),
            disk("/dev/sda1", "/boot/efi"),
            disk("systemd-10", "/x"),
        ]),
        named(&[("/dev/sda1", "/boot/efi"), ("systemd-10", "/x")])
    );
}

#[test]
fn a_mount_point_has_one_disk() {
    assert_eq!(
        listed(vec![disk("old", "/mnt"), disk("new", "/mnt")]),
        named(&[("new", "/mnt")])
    );
}

#[test]
fn no_disks_are_listed_of_none() {
    assert_eq!(listed(vec![]), named(&[]));
}

#[test]
fn disks_are_collected_by_mount_point() {
    let table = collected(vec![disk("one", "/a"), disk("two", "/b"), disk("three", "/a")]);
    let pairs: Vec<(String, String)> = table
        .listed()
        .into_iter()
        .map(|disk| (disk.name, disk.mount_point))
        .collect();
    assert_eq!(pairs, named(&[("three", "/a"), ("two", "/b")]));
    assert_eq!(collected(vec![]), DiskTable::new());
}
