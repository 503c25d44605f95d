use proxmox_imgctl::pvesh::{
    extract_field, list_storages, list_templates, next_free_vmid, next_free_vmid_from,
    vmid_exists,
};

const RESOURCES: &str = r#"[{"id":"qemu/9001","name":"debian-bookworm-template","node":"pve","status":"stopped","template":1,"type":"qemu","vmid":9001},{"id":"qemu/101","name":"web-01","node":"pve","status":"running","template":0,"type":"qemu","vmid":101},{"id":"qemu/9000","node":"pve","template":1,"type":"qemu","vmid":9000},{"id":"qemu/9002","name":"x","template":"1","vmid":"9002"}]"#;

#[test]
fn templates_are_listed_sorted_with_default_names() {
    let t = list_templates(RESOURCES);
    assert_eq!(
        t,
        vec![
            (9000, "vm9000".to_string()),
            (9001, "debian-bookworm-template".to_string()),
            (9002, "x".to_string()),
        ]
    );
}

#[test]
fn templates_keep_order_of_equal_vmids() {
    let json = r#"[{"template":1,"vmid":5,"name":"b"},{"template":1,"vmid":3,"name":"a"},{"template":1,"vmid":5,"name":"c"}]"#;
    assert_eq!(
        list_templates(json),
        vec![(3, "a".to_string()), (5, "b".to_string()), (5, "c".to_string())]
    );
}

#[test]
fn no_templates_in_empty_or_broken_json() {
    assert!(list_templates("").is_empty());
    assert!(list_templates("[]").is_empty());
    assert!(list_templates(r#"[{"template":1,"vmid":-4}]"#).is_empty());
    assert!(list_templates(r#"}}{"template":1,"vmid":7"#).is_empty());
}

#[test]
fn fields_are_read_quoted_or_bare() {
    assert_eq!(extract_field(r#"{"a":"x y","b": 12 ,"c":3}"#, "a").as_deref(), Some("x y"));
    assert_eq!(extract_field(r#"{"a":"x y","b": 12 ,"c":3}"#, "b").as_deref(), Some("12"));
    assert_eq!(extract_field(r#"{"a":"x y","b": 12 ,"c":3}"#, "c").as_deref(), Some("3"));
    assert_eq!(extract_field(r#"{"a":"x y"}"#, "d"), None);
    assert_eq!(extract_field(r#"{"a":"open"#, "a"), None);
    assert_eq!(extract_field(r#"{"a":7"#, "a").as_deref(), Some("7"));
}

#[test]
fn next_free_vmid_from_skips_used_ids() {
    assert_eq!(next_free_vmid_from(9000, RESOURCES), Some(9003));
    assert_eq!(next_free_vmid_from(100, RESOURCES), Some(100));
    assert_eq!(next_free_vmid_from(101, RESOURCES), Some(102));
    let top = format!(r#"[{{"vmid":{}}},{{"vmid":{}}}]"#, u32::MAX - 1, u32::MAX);
    assert_eq!(next_free_vmid_from(u32::MAX - 1, &top), None);
    assert_eq!(next_free_vmid_from(u32::MAX - 2, &top), Some(u32::MAX - 2));
}

#[test]
fn next_free_vmid_reads_the_cluster_answer() {
    assert_eq!(next_free_vmid("105\n"), Some(105));
    assert_eq!(next_free_vmid("\"106\"\n"), Some(106));
    assert_eq!(next_free_vmid("+7"), Some(7));
    assert_eq!(next_free_vmid(""), None);
    assert_eq!(next_free_vmid("abc"), None);
    assert_eq!(next_free_vmid("4294967296"), None);
}

const QM_LIST: &str = "      VMID NAME                 STATUS     MEM(MB)    BOOTDISK(GB) PID\n       101 web-01               running    2048              32.00 1234\n      9000 ubuntu-noble-template stopped    1024               3.50 0\n";

#[test]
fn vmid_exists_looks_past_the_header() {
    assert!(vmid_exists(QM_LIST, 101));
    assert!(vmid_exists(QM_LIST, 9000));
    assert!(!vmid_exists(QM_LIST, 100));
    assert!(!vmid_exists("101 header only", 101));
}

#[test]
fn storages_are_the_first_words_after_the_header() {
    let out = "Name             Type     Status           Total            Used       Available        %\nlocal             dir     active        98497780        12345678        81000000   12.53%\nlocal-lvm     lvmthin     active       832888832       100000000       732888832   12.01%\n\n";
    assert_eq!(list_storages(out), vec!["local".to_string(), "local-lvm".to_string()]);
    assert!(list_storages("").is_empty());
}
