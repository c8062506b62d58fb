use block_benchie::config::Config;
use block_benchie::device::{
    best_by_id_path, by_id_rank, default_output_path, device_label_from_by_id, filename_safe,
    ByIdEntry, DeviceMetadata,
};
use block_benchie::path::{markdown_output_path, UnixPath};

fn entry(name: &str, target: Option<&str>) -> ByIdEntry {
    ByIdEntry {
        path: UnixPath::from_text(&format!("/dev/disk/by-id/{name}")),
        target: target.map(UnixPath::from_text),
    }
}

fn best(entries: &Vec<ByIdEntry>, device: &str) -> Option<String> {
    best_by_id_path(entries, &UnixPath::from_text(device)).map(|path| path.display())
}

#[test]
fn rank_is_class_then_length_then_name() {
    let rank = |name: &str| by_id_rank(&UnixPath::from_text(&format!("/dev/disk/by-id/{name}")));
    assert_eq!(rank("nvme-Disk"), (0, 9, "nvme-Disk".to_string()));
    assert_eq!(rank("wwn-0x5"), (1, 7, "wwn-0x5".to_string()));
    assert_eq!(rank("nvme-eui.00"), (1, 11, "nvme-eui.00".to_string()));
    assert_eq!(rank("dm-uuid-x"), (1, 9, "dm-uuid-x".to_string()));
    assert_eq!(rank("dm-name-x"), (1, 9, "dm-name-x".to_string()));
    assert_eq!(rank("ata-ö"), (0, 6, "ata-ö".to_string()));
    assert_eq!(by_id_rank(&UnixPath::from_text("/")), (0, 0, String::new()));
    assert_eq!(by_id_rank(&UnixPath::from_bytes(vec![b'/', 0xff])), (0, 0, String::new()));
}

#[test]
fn the_best_ranked_link_to_the_device_is_chosen() {
    let entries = vec![
        entry("wwn-0x1", Some("/dev/sda")),
        entry("ata-Disk_Long_Name", Some("/dev/sda")),
        entry("ata-Other", Some("/dev/sdb")),
        entry("ata-Disk_B", Some("/dev/sda")),
        entry("ata-Disk_A", Some("/dev/sda")),
        entry("ata-X", None),
    ];
    assert_eq!(best(&entries, "/dev/sda"), Some("/dev/disk/by-id/ata-Disk_A".to_string()));
    assert_eq!(best(&entries, "/dev//sdb/"), Some("/dev/disk/by-id/ata-Other".to_string()));
    assert_eq!(best(&entries, "/dev/sdc"), None);
}

#[test]
fn a_generic_link_is_better_than_none() {
    let entries = vec![
        entry("wwn-0x22", Some("/dev/sda")),
        entry("dm-name-b", Some("/dev/sda")),
    ];
    assert_eq!(best(&entries, "/dev/sda"), Some("/dev/disk/by-id/wwn-0x22".to_string()));
}

#[test]
fn the_first_of_equal_ranks_is_chosen() {
    let broken = |last: u8| ByIdEntry {
        path: UnixPath::from_bytes(vec![b'/', 0xff, last]),
        target: Some(UnixPath::from_text("/dev/sda")),
    };
    let entries = vec![broken(2), broken(1)];
    let chosen = best_by_id_path(&entries, &UnixPath::from_text("/dev/sda"));
    assert_eq!(chosen.unwrap().bytes, vec![b'/', 0xff, 2]);
}

#[test]
fn labels_lose_the_bus() {
    assert_eq!(device_label_from_by_id("nvme-Disk"), "Disk");
    assert_eq!(device_label_from_by_id("ata-Disk"), "Disk");
    assert_eq!(device_label_from_by_id("scsi-Disk"), "Disk");
    assert_eq!(device_label_from_by_id("usb-Disk"), "Disk");
    assert_eq!(device_label_from_by_id("mmc-Disk"), "mmc-Disk");
    assert_eq!(device_label_from_by_id("nvme-ata-Disk"), "ata-Disk");
    assert_eq!(device_label_from_by_id("nvme-"), "");
}

#[test]
fn names_are_made_safe() {
    assert_eq!(filename_safe("Disk 1/a:b"), "Disk_1_a_b");
    assert_eq!(filename_safe("a.b-c_D9"), "a.b-c_D9");
    assert_eq!(filename_safe("größe"), "gr__e");
    assert_eq!(filename_safe(""), "block-device");
    assert_eq!(filename_safe(&filename_safe("x y")), "x_y");
}

#[test]
fn the_graph_is_named_after_the_link() {
    let link = "nvme-Samsung_SSD_990_PRO_2TB_S7KHNJ0W123456";
    let metadata = DeviceMetadata::for_path(
        &UnixPath::from_text("/dev/nvme0n1"),
        Some(UnixPath::from_text("/dev/nvme0n1")),
        &vec![entry("nvme-eui.0025", Some("/dev/nvme0n1")), entry(link, Some("/dev/nvme0n1"))],
    );
    assert_eq!(metadata.label, "Samsung_SSD_990_PRO_2TB_S7KHNJ0W123456");
    assert_eq!(
        metadata.by_id_path.as_ref().map(|path| path.display()),
        Some(format!("/dev/disk/by-id/{link}"))
    );
    let svg = default_output_path(&metadata);
    assert_eq!(svg.display(), "block-benchie-Samsung_SSD_990_PRO_2TB_S7KHNJ0W123456.svg");
    assert_eq!(
        markdown_output_path(&svg).display(),
        "block-benchie-Samsung_SSD_990_PRO_2TB_S7KHNJ0W123456.md"
    );
}

#[test]
fn without_a_link_the_device_node_names_the_graph() {
    let metadata = DeviceMetadata::for_path(&UnixPath::from_text("/dev/sda"), None, &vec![]);
    assert_eq!(metadata.label, "sda");
    assert_eq!(metadata.input_path.display(), "/dev/sda");
    assert_eq!(metadata.canonical_path.display(), "/dev/sda");
    assert!(metadata.by_id_path.is_none());
    assert_eq!(default_output_path(&metadata).display(), "block-benchie-sda.svg");
}

#[test]
fn a_nameless_device_gets_a_stand_in() {
    let metadata = DeviceMetadata::for_path(&UnixPath::from_text("/"), None, &vec![]);
    assert_eq!(metadata.label, "block-device");
}

#[test]
fn a_link_that_is_not_utf8_leaves_the_naming_to_the_node() {
    let entries = vec![ByIdEntry {
        path: UnixPath::from_bytes(vec![b'/', 0xff]),
        target: Some(UnixPath::from_text("/dev/sda")),
    }];
    let resolved = Some(UnixPath::from_text("/dev/sda"));
    let metadata = DeviceMetadata::for_path(&UnixPath::from_text("/tmp/link"), resolved, &entries);
    assert_eq!(metadata.label, "link");
    assert_eq!(metadata.canonical_path.display(), "/dev/sda");
    assert!(metadata.by_id_path.is_some());
}

#[test]
fn the_caller_decides_where_the_graph_goes() {
    let metadata = DeviceMetadata::for_path(&UnixPath::from_text("/dev/sda"), None, &vec![]);
    let device = UnixPath::from_text("/dev/sda");
    let chosen = Config::new(device.clone(), 200, 100, Some(UnixPath::from_text("nvme0n1.svg")));
    assert_eq!(chosen.svg_output(&metadata).display(), "nvme0n1.svg");
    let open = Config::new(device, 200, 100, None);
    assert_eq!(open.svg_output(&metadata).display(), "block-benchie-sda.svg");
    assert_eq!(open.sample_duration().millis, 100);
}
