use sql_crdt::api::mount;
use sql_crdt::volumes::{disk_kind_name, is_under_system, list_volumes, volume_from_disk, DiskKind, Volume, VolumeError};

fn vol(mount_point: &str) -> Volume {
    volume_from_disk(Some("disk".to_string()), Some(mount_point.to_string()), 100, 40, false, Some("apfs".to_string()), DiskKind::Ssd, false)
}

#[test]
fn disk_fields_carry_over() {
    let v = volume_from_disk(Some("data".to_string()), Some("/mnt/data".to_string()), 1000, 250, true, Some("ext4".to_string()), DiskKind::Hdd, false);
    assert_eq!(v.name, "data");
    assert_eq!(v.mount_point, "/mnt/data");
    assert_eq!(v.total_capacity, 1000);
    assert_eq!(v.available_capacity, 250);
    assert!(v.is_removable);
    assert_eq!(v.disk_type.as_deref(), Some("HDD"));
    assert_eq!(v.file_system.as_deref(), Some("ext4"));
    assert!(!v.is_root_filesystem);
}

#[test]
fn missing_texts_get_defaults() {
    let v = volume_from_disk(None, None, 1, 1, false, None, DiskKind::Other, false);
    assert_eq!(v.name, "Volume");
    assert_eq!(v.mount_point, "/");
    assert_eq!(v.file_system.as_deref(), Some("Err"));
    assert_eq!(v.disk_type.as_deref(), Some("Removable Disk"));
    assert!(v.is_root_filesystem);
}

#[test]
fn main_volume_is_renamed() {
    let data = volume_from_disk(Some("Data".to_string()), Some("/System/Volumes/Data".to_string()), 1, 1, false, None, DiskKind::Ssd, true);
    assert_eq!(data.name, "Macintosh HD");
    assert_eq!(data.mount_point, "/");
    assert!(data.is_root_filesystem);
    let mac_root = volume_from_disk(Some("disk1".to_string()), Some("/".to_string()), 1, 1, false, None, DiskKind::Ssd, true);
    assert_eq!(mac_root.name, "Macintosh HD");
    let linux_root = volume_from_disk(Some("sda1".to_string()), Some("/".to_string()), 1, 1, false, None, DiskKind::Ssd, false);
    assert_eq!(linux_root.name, "sda1");
    assert!(linux_root.is_root_filesystem);
}

#[test]
fn system_volumes_are_not_listed() {
    let vs = vec![vol("/"), vol("/System/Volumes/VM"), vol("/Volumes/USB"), vol("/Sys"), vol("/System")];
    let listed: Vec<String> = list_volumes(vs).into_iter().map(|v| v.mount_point).collect();
    assert_eq!(listed, vec!["/".to_string(), "/Volumes/USB".to_string(), "/Sys".to_string()]);
    assert!(list_volumes(Vec::new()).is_empty());
}

#[test]
fn system_prefix_and_labels() {
    assert!(is_under_system(&"/System/Library".to_string()));
    assert!(!is_under_system(&"/Syst".to_string()));
    assert!(!is_under_system(&"/system".to_string()));
    assert_eq!(disk_kind_name(DiskKind::Ssd), "SSD");
}

#[test]
fn volume_api_has_get_query() {
    assert_eq!(mount().queries, vec!["get".to_string()]);
}

#[test]
fn volume_error_carries_message() {
    let e = VolumeError::DatabaseErr("locked".to_string());
    assert_eq!(e, VolumeError::DatabaseErr("locked".to_string()));
}
